//! A persistent sparse array from 64-bit indices to byte-string values,
//! stored as an array-mapped trie of content-addressed blocks.
//!
//! A handle records the configuration (the bit width), the current height
//! and entry count, and the content identifier of the root node; every
//! node lives in a [`store::BlockStore`]. Writing copies the path from the
//! changed leaf to the root, so every state of the trie is a value and
//! earlier roots stay readable.

pub mod diff;
pub mod node;
pub mod store;

use vstd::arithmetic::div_mod::{lemma_fundamental_div_mod, lemma_small_mod};
use vstd::arithmetic::power2::{lemma_pow2_adds, lemma_pow2_pos, pow2};
use vstd::bits::{lemma_u64_pow2_no_overflow, lemma_u64_shl_is_mul};
use vstd::prelude::*;

use crate::amt::node::{
    lemma_slot_pruned_extends, slot_get, slot_pruned, slot_wf, span, store_extends, subtree_cap,
    view_block, view_slots, BlockView, PersistNode, Slots, StoreMap, StoredBlock,
};
use crate::amt::store::{copy_bytes, copy_opt_bytes, AmtError, BlockStore};

verus! {

/// The image of an optional byte string.
pub open spec fn opt_view(o: Option<Vec<u8>>) -> Option<Seq<u8>> {
    match o {
        Some(v) => Some(v@),
        None => None,
    }
}

/// Composing two extensions is an extension.
pub proof fn lemma_store_extends_trans(s1: StoreMap, s2: StoreMap, s3: StoreMap)
    requires
        store_extends(s1, s2),
        store_extends(s2, s3),
    ensures
        store_extends(s1, s3),
{
    assert forall|k: Seq<u8>| #[trigger]
        s1.contains_key(k) implies s3.contains_key(k) && s3[k] == s1[k] by {
        assert(s2.contains_key(k) && s2[k] == s1[k]);
    }
}

/// `2^e` as a 64-bit integer.
pub(crate) fn pow2_u64(e: u32) -> (r: u64)
    requires
        e < 64,
    ensures
        r == pow2(e as nat),
{
    proof {
        lemma_u64_pow2_no_overflow(e as nat);
        lemma_u64_shl_is_mul(1u64, e as u64);
    }
    1u64 << e
}

/// Whether index `i` lies below the capacity of a trie of the given bit
/// width and height.
fn capacity_fits(bit_width: u32, height: u32, i: u64) -> (r: bool)
    requires
        1 <= bit_width <= 8,
        bit_width * (height + 1) <= 64,
    ensures
        r == (i < subtree_cap(bit_width as nat, height as nat)),
{
    proof {
        assert(height + 1 <= 64) by (nonlinear_arith)
            requires
                bit_width >= 1,
                bit_width * (height + 1) <= 64,
        ;
    }
    let bits = bit_width * (height + 1);
    proof {
        assert((bits as nat) == (bit_width as nat) * ((height as nat) + 1)) by (nonlinear_arith)
            requires
                bits == bit_width * (height + 1),
        ;
    }
    if bits == 64 {
        proof {
            vstd::arithmetic::power2::lemma2_to64_rest();
            assert(subtree_cap(bit_width as nat, height as nat) == pow2(64));
        }
        true
    } else {
        proof {
            lemma_u64_pow2_no_overflow(bits as nat);
            lemma_u64_shl_is_mul(1u64, bits as u64);
        }
        i < (1u64 << bits)
    }
}

/// A row of `width` empty slots.
fn fresh_slots(width: usize) -> (r: Slots)
    ensures
        r@.len() == width,
        forall|j: int| 0 <= j < width ==> view_slots(r@)[j] is None,
{
    let mut out: Slots = Vec::new();
    let mut i: usize = 0;
    while i < width
        invariant
            i <= width,
            out@.len() == i,
            forall|j: int| 0 <= j < i ==> view_slots(out@)[j] is None,
        decreases width - i,
    {
        let ghost prev = out@;
        out.push(None);
        proof {
            assert(view_slots(out@) =~= view_slots(prev).push(None));
        }
        i = i + 1;
    }
    out
}

/// Insert `v` at local index `i` of the subtree rooted at `slot` at height
/// `h`, writing the copied path into the store. Returns the identifier of
/// the new subtree root and the value previously at `i`.
fn set_slot(s: &mut BlockStore, slot: &Option<Vec<u8>>, h: u32, bw: u32, i: u64, v: Vec<u8>) -> (r:
    Result<(Vec<u8>, Option<Vec<u8>>), AmtError>)
    requires
        1 <= bw <= 8,
        bw * (h + 1) <= 64,
        slot_wf(old(s).view_map(), opt_view(*slot), h as nat, bw as nat),
        i < subtree_cap(bw as nat, h as nat),
    ensures
        store_extends(old(s).view_map(), final(s).view_map()),
        crate::amt::store::content_addressed(old(s).view_map())
            ==> crate::amt::store::content_addressed(final(s).view_map()),
        crate::amt::store::content_addressed(old(s).view_map())
            && crate::amt::store::cid_injective() ==> r is Ok,
        r matches Ok((ncid, old_v)) ==> ({
            &&& slot_wf(final(s).view_map(), Some(ncid@), h as nat, bw as nat)
            &&& (slot_pruned(old(s).view_map(), opt_view(*slot), h as nat, bw as nat)
                ==> slot_pruned(final(s).view_map(), Some(ncid@), h as nat, bw as nat))
            &&& forall|j: int|
                slot_get(final(s).view_map(), Some(ncid@), h as nat, bw as nat, j) == (if j
                    == i as int {
                    Some(v@)
                } else {
                    slot_get(old(s).view_map(), opt_view(*slot), h as nat, bw as nat, j)
                })
            &&& opt_view(old_v) == slot_get(
                old(s).view_map(),
                opt_view(*slot),
                h as nat,
                bw as nat,
                i as int,
            )
        }),
        r is Err ==> r->Err_0 == AmtError::CorruptStore,
    decreases h,
{
    let ghost m0 = old(s).view_map();
    proof {
        vstd::arithmetic::power2::lemma2_to64();
        vstd::arithmetic::power2::lemma_pow2_strictly_increases(bw as nat, 9);
    }
    let width_u64 = pow2_u64(bw);
    let width = width_u64 as usize;
    if h == 0 {
        proof {
            assert(bw * (0 + 1) == bw) by (nonlinear_arith)
                requires
                    true,
            ;
            assert(subtree_cap(bw as nat, 0) == pow2(bw as nat));
        }
        let mut vals: Slots = match slot {
            Some(cid) => match s.get(cid) {
                Some(StoredBlock::Node(PersistNode::Leaf(vs))) => vs,
                _ => {
                    // Well-formedness puts a leaf image under this
                    // identifier, so no other shape can come back.
                    proof {
                        assert(false);
                    }
                    return Err(AmtError::CorruptStore);
                },
            },
            None => fresh_slots(width),
        };
        let ghost old_vals = view_slots(vals@);
        proof {
            assert(vals@.len() == pow2(bw as nat));
            assert(i < vals@.len());
        }
        let idx = i as usize;
        let old_v = copy_opt_bytes(&vals[idx]);
        proof {
            assert(opt_view(old_v) == old_vals[i as int]);
            assert(slot_get(m0, opt_view(*slot), h as nat, bw as nat, i as int)
                == old_vals[i as int]);
        }
        vals.set(idx, Some(v));
        proof {
            assert(view_slots(vals@) =~= old_vals.update(i as int, Some(v@)));
        }
        let ncid = match s.put_block(StoredBlock::Node(PersistNode::Leaf(vals))) {
            Ok(c) => c,
            Err(e) => {
                proof {
                    if crate::amt::store::content_addressed(m0)
                        && crate::amt::store::cid_injective() {
                        assert(false);
                    }
                }
                return Err(e);
            },
        };
        proof {
            assert(s.view_map()[ncid@] == BlockView::Leaf {
                vals: old_vals.update(i as int, Some(v@)),
            });
            assert forall|j: int|
                slot_get(s.view_map(), Some(ncid@), h as nat, bw as nat, j) == (if j == i as int {
                    Some(v@)
                } else {
                    slot_get(m0, opt_view(*slot), h as nat, bw as nat, j)
                }) by {
                if j != i as int && 0 <= j < old_vals.len() {
                    assert(slot_get(m0, opt_view(*slot), h as nat, bw as nat, j) == old_vals[j]);
                }
            }
            assert(slot_get(s.view_map(), Some(ncid@), h as nat, bw as nat, i as int) is Some);
            assert(slot_pruned(s.view_map(), Some(ncid@), h as nat, bw as nat));
        }
        Ok((ncid, old_v))
    } else {
        let mut links: Slots = match slot {
            Some(cid) => match s.get(cid) {
                Some(StoredBlock::Node(PersistNode::Links(ls))) => ls,
                _ => {
                    // Well-formedness puts a links image under this
                    // identifier, so no other shape can come back.
                    proof {
                        assert(false);
                    }
                    return Err(AmtError::CorruptStore);
                },
            },
            None => fresh_slots(width),
        };
        let ghost old_links = view_slots(links@);
        proof {
            assert(bw * h == (bw as nat) * (h as nat)) by (nonlinear_arith)
                requires
                    true,
            ;
            assert(bw * h < 64) by (nonlinear_arith)
                requires
                    bw >= 1,
                    bw * (h + 1) <= 64,
            ;
        }
        let sp = pow2_u64(bw * h);
        let ghost spi = span(bw as nat, h as nat) as int;
        proof {
            lemma_pow2_pos((bw as nat) * (h as nat));
            assert(sp == spi);
            assert(subtree_cap(bw as nat, h as nat) == pow2(bw as nat) * span(bw as nat, h as nat))
                by {
                lemma_pow2_adds(bw as nat, (bw as nat) * (h as nat));
                assert((bw as nat) * ((h as nat) + 1) == (bw as nat) + (bw as nat) * (h as nat))
                    by (nonlinear_arith)
                        requires
                            true,
                ;
            }
            assert(bw * ((h - 1) + 1) <= 64) by (nonlinear_arith)
                requires
                    h >= 1,
                    bw >= 1,
                    bw * (h + 1) <= 64,
            ;
        }
        let c64 = i / sp;
        let sub_i = i % sp;
        proof {
            assert(c64 < width_u64 && sub_i < sp) by (nonlinear_arith)
                requires
                    sp > 0,
                    i < width_u64 * sp,
                    c64 == i / sp,
                    sub_i == i % sp,
            ;
            assert((bw as nat) * (((h - 1) as nat) + 1) == (bw as nat) * (h as nat))
                by (nonlinear_arith)
                    requires
                        h >= 1,
            ;
            assert(subtree_cap(bw as nat, (h - 1) as nat) == span(bw as nat, h as nat));
        }
        let c = c64 as usize;
        let child = copy_opt_bytes(&links[c]);
        proof {
            assert(opt_view(child) == old_links[c as int]);
            assert(slot_wf(m0, old_links[c as int], (h - 1) as nat, bw as nat));
        }
        let (ccid, old_v) = match set_slot(s, &child, h - 1, bw, sub_i, v) {
            Ok(x) => x,
            Err(e) => {
                proof {
                    if crate::amt::store::content_addressed(m0)
                        && crate::amt::store::cid_injective() {
                        assert(false);
                    }
                }
                return Err(e);
            },
        };
        let ghost m1 = s.view_map();
        links.set(c, Some(ccid));
        proof {
            assert(view_slots(links@) =~= old_links.update(c as int, Some(ccid@)));
        }
        let ncid = match s.put_block(StoredBlock::Node(PersistNode::Links(links))) {
            Ok(x) => x,
            Err(e) => {
                proof {
                    lemma_store_extends_trans(m0, m1, s.view_map());
                    if crate::amt::store::content_addressed(m0)
                        && crate::amt::store::cid_injective() {
                        assert(crate::amt::store::content_addressed(m1));
                        assert(false);
                    }
                }
                return Err(e);
            },
        };
        let ghost m2 = s.view_map();
        proof {
            lemma_store_extends_trans(m0, m1, m2);
            // The new child subtree survives the final block write.
            node::lemma_slot_get_extends(m1, m2, Some(ccid@), (h - 1) as nat, bw as nat);
            // Sibling subtrees are unchanged by both store writes.
            assert forall|cc: int|
                0 <= cc < old_links.len() && cc != c as int implies slot_wf(
                m2,
                old_links[cc],
                (h - 1) as nat,
                bw as nat,
            ) && forall|j: int|
                #[trigger] slot_get(m2, old_links[cc], (h - 1) as nat, bw as nat, j) == slot_get(
                    m0,
                    old_links[cc],
                    (h - 1) as nat,
                    bw as nat,
                    j,
                ) by {
                node::lemma_slot_get_extends(m0, m2, old_links[cc], (h - 1) as nat, bw as nat);
            }
            // Shape of the new node.
            assert(slot_wf(m2, Some(ncid@), h as nat, bw as nat)) by {
                assert forall|cc: int|
                    0 <= cc < view_slots(links@).len() implies slot_wf(
                    m2,
                    view_slots(links@)[cc],
                    (h - 1) as nat,
                    bw as nat,
                ) by {
                    if cc != c as int {
                        node::lemma_slot_get_extends(
                            m0,
                            m2,
                            old_links[cc],
                            (h - 1) as nat,
                            bw as nat,
                        );
                    }
                }
            }
            // Pointwise semantics of the new node.
            assert forall|j: int|
                slot_get(m2, Some(ncid@), h as nat, bw as nat, j) == (if j == i as int {
                    Some(v@)
                } else {
                    slot_get(m0, opt_view(*slot), h as nat, bw as nat, j)
                }) by {
                if 0 <= j && j / spi < old_links.len() {
                    let cj = j / spi;
                    assert(0 <= cj) by (nonlinear_arith)
                        requires
                            j >= 0,
                            spi > 0,
                            cj == j / spi,
                    ;
                    if cj == c as int {
                        assert(slot_get(m2, Some(ncid@), h as nat, bw as nat, j) == slot_get(
                            m2,
                            Some(ccid@),
                            (h - 1) as nat,
                            bw as nat,
                            j % spi,
                        ));
                        if j == i as int {
                            assert(j % spi == sub_i as int) by (nonlinear_arith)
                                requires
                                    spi > 0,
                                    j == i,
                                    sub_i == i as int % spi,
                            ;
                        } else {
                            // Same child, different local index.
                            assert(j % spi != sub_i as int) by {
                                if j % spi == sub_i as int {
                                    lemma_fundamental_div_mod(j, spi);
                                    lemma_fundamental_div_mod(i as int, spi);
                                }
                            }
                        }
                    } else {
                        assert(slot_get(m2, Some(ncid@), h as nat, bw as nat, j) == slot_get(
                            m2,
                            old_links[cj],
                            (h - 1) as nat,
                            bw as nat,
                            j % spi,
                        ));
                        assert(j != i as int) by {
                            if j == i as int {
                                assert(cj == c as int);
                            }
                        }
                    }
                } else {
                    assert(slot_get(m2, Some(ncid@), h as nat, bw as nat, j) is None);
                    assert(slot_get(m0, opt_view(*slot), h as nat, bw as nat, j) is None);
                    assert(j != i as int) by {
                        if j == i as int {
                            assert(0 <= j && j / spi == c64 as int) by (nonlinear_arith)
                                requires
                                    spi > 0,
                                    j == i,
                                    c64 == i / sp,
                                    sp == spi,
                            ;
                        }
                    }
                }
            }
            // The new subtree stays pruned: it holds the inserted value,
            // the rewritten child is pruned by the recursive call, and the
            // untouched children were pruned before and are unchanged.
            if slot_pruned(m0, opt_view(*slot), h as nat, bw as nat) {
                assert(slot_get(m2, Some(ncid@), h as nat, bw as nat, i as int) is Some);
                lemma_slot_pruned_extends(m1, m2, Some(ccid@), (h - 1) as nat, bw as nat);
                assert forall|cc: int|
                    0 <= cc < view_slots(links@).len() implies slot_pruned(
                    m2,
                    view_slots(links@)[cc],
                    (h - 1) as nat,
                    bw as nat,
                ) by {
                    if cc != c as int {
                        assert(slot_pruned(m0, old_links[cc], (h - 1) as nat, bw as nat));
                        lemma_slot_pruned_extends(m0, m2, old_links[cc], (h - 1) as nat, bw as nat);
                    }
                }
                assert(slot_pruned(m2, Some(ncid@), h as nat, bw as nat));
            }
        }
        Ok((ncid, old_v))
    }
}

/// Read the value at local index `i` of the subtree rooted at `slot`.
fn get_slot(s: &BlockStore, slot: &Option<Vec<u8>>, h: u32, bw: u32, i: u64) -> (r: Result<
    Option<Vec<u8>>,
    AmtError,
>)
    requires
        1 <= bw <= 8,
        bw * (h + 1) <= 64,
        slot_wf(s.view_map(), opt_view(*slot), h as nat, bw as nat),
        i < subtree_cap(bw as nat, h as nat),
    ensures
        r is Ok,
        r matches Ok(o) ==> opt_view(o) == slot_get(
            s.view_map(),
            opt_view(*slot),
            h as nat,
            bw as nat,
            i as int,
        ),
    decreases h,
{
    let cid = match slot {
        Some(cid) => cid,
        None => {
            return Ok(None);
        },
    };
    if h == 0 {
        proof {
            assert(bw * (0 + 1) == bw) by (nonlinear_arith)
                requires
                    true,
            ;
            assert(subtree_cap(bw as nat, 0) == pow2(bw as nat));
        }
        match s.get(cid) {
            Some(StoredBlock::Node(PersistNode::Leaf(vs))) => {
                let idx = i as usize;
                Ok(copy_opt_bytes(&vs[idx]))
            },
            _ => Err(AmtError::CorruptStore),
        }
    } else {
        let links = match s.get(cid) {
            Some(StoredBlock::Node(PersistNode::Links(ls))) => ls,
            _ => {
                return Err(AmtError::CorruptStore);
            },
        };
        proof {
            assert(bw * h == (bw as nat) * (h as nat)) by (nonlinear_arith)
                requires
                    true,
            ;
            assert(bw * h < 64) by (nonlinear_arith)
                requires
                    bw >= 1,
                    bw * (h + 1) <= 64,
            ;
        }
        let sp = pow2_u64(bw * h);
        let ghost spi = span(bw as nat, h as nat) as int;
        proof {
            lemma_pow2_pos((bw as nat) * (h as nat));
            assert(sp == spi);
            assert(subtree_cap(bw as nat, h as nat) == pow2(bw as nat) * span(bw as nat, h as nat))
                by {
                lemma_pow2_adds(bw as nat, (bw as nat) * (h as nat));
                assert((bw as nat) * ((h as nat) + 1) == (bw as nat) + (bw as nat) * (h as nat))
                    by (nonlinear_arith)
                        requires
                            true,
                ;
            }
            assert(bw * ((h - 1) + 1) <= 64) by (nonlinear_arith)
                requires
                    h >= 1,
                    bw >= 1,
                    bw * (h + 1) <= 64,
            ;
            vstd::arithmetic::power2::lemma2_to64();
            vstd::arithmetic::power2::lemma_pow2_strictly_increases(bw as nat, 9);
        }
        let c64 = i / sp;
        let sub_i = i % sp;
        proof {
            assert(c64 < pow2(bw as nat) && sub_i < sp) by (nonlinear_arith)
                requires
                    sp > 0,
                    i < pow2(bw as nat) * sp,
                    c64 == i / sp,
                    sub_i == i % sp,
                    sp == spi,
            ;
            assert((bw as nat) * (((h - 1) as nat) + 1) == (bw as nat) * (h as nat))
                by (nonlinear_arith)
                    requires
                        h >= 1,
            ;
        }
        let c = c64 as usize;
        let child = copy_opt_bytes(&links[c]);
        get_slot(s, &child, h - 1, bw, sub_i)
    }
}

/// A persistent sparse array of byte-string values keyed by 64-bit
/// indices. The handle holds the configuration, the height, the count of
/// set operations that found the index empty, and the root identifier; the
/// nodes live in a block store passed to every operation.
#[derive(Debug)]
pub struct Amt {
    pub bit_width: u32,
    pub height: u32,
    pub count: u64,
    pub root: Option<Vec<u8>>,
}

impl Amt {
    /// The root identifier's image.
    pub open spec fn root_view(self) -> Option<Seq<u8>> {
        opt_view(self.root)
    }

    /// Well-formedness against a store: a supported bit width, a height
    /// whose capacity arithmetic fits sixty-four bits, a well-formed root
    /// subtree, and an empty root while nothing was ever inserted.
    ///
    /// The bit width is bounded at eight because every node row holds
    /// `2^bit_width` slots: the persisted formats address slots through a
    /// bitmap of at most two hundred fifty-six bits, and the configuration
    /// commonly uses widths of five to eight. The specification itself
    /// only demands a width of at least one.
    pub open spec fn wf(self, m: StoreMap) -> bool {
        &&& 1 <= self.bit_width <= 8
        &&& self.bit_width * (self.height + 1) <= 64
        &&& slot_wf(m, self.root_view(), self.height as nat, self.bit_width as nat)
        &&& (self.count == 0 ==> self.root is None)
    }

    /// The value the array holds at index `i`, read through the store.
    pub open spec fn sem(self, m: StoreMap, i: int) -> Option<Seq<u8>> {
        slot_get(m, self.root_view(), self.height as nat, self.bit_width as nat, i)
    }

    /// Whether every node of the trie holds at least one value. Freshly
    /// created tries are pruned and insertion keeps them so.
    pub open spec fn pruned(self, m: StoreMap) -> bool {
        slot_pruned(m, self.root_view(), self.height as nat, self.bit_width as nat)
    }

    /// A fresh, empty array with the given bit width. Widths run from one
    /// to eight: a node row holds `2^bit_width` slots, and the persisted
    /// formats bound that row at two hundred fifty-six.
    pub fn new(bit_width: u32) -> (r: Amt)
        requires
            1 <= bit_width <= 8,
        ensures
            forall|m: StoreMap| r.wf(m),
            forall|m: StoreMap| r.pruned(m),
            forall|m: StoreMap, i: int| r.sem(m, i) is None,
            r.bit_width == bit_width,
            r.count == 0,
    {
        proof {
            assert(bit_width * (0 + 1) == bit_width) by (nonlinear_arith)
                requires
                    true,
            ;
        }
        Amt { bit_width, height: 0, count: 0, root: None }
    }

    /// The number of entries ever inserted at a previously empty index.
    pub fn count(&self) -> (r: u64)
        ensures
            r == self.count,
    {
        self.count
    }

    /// Whether index `i` lies within the current height's capacity.
    fn fits(&self, i: u64) -> (r: bool)
        requires
            1 <= self.bit_width <= 8,
            self.bit_width * (self.height + 1) <= 64,
        ensures
            r == (i < subtree_cap(self.bit_width as nat, self.height as nat)),
    {
        capacity_fits(self.bit_width, self.height, i)
    }

    /// Insert or overwrite the value at index `i`, growing the height
    /// until the index fits. On success the array reads `v` at `i` and is
    /// unchanged everywhere else; the count grows exactly when `i` was
    /// empty.
    pub fn set(&mut self, s: &mut BlockStore, i: u64, v: Vec<u8>) -> (r: Result<(), AmtError>)
        requires
            old(self).wf(old(s).view_map()),
        ensures
            store_extends(old(s).view_map(), final(s).view_map()),
            crate::amt::store::content_addressed(old(s).view_map())
                ==> crate::amt::store::content_addressed(final(s).view_map()),
            final(self).bit_width == old(self).bit_width,
            r is Ok ==> i < pow2(
                ((64nat / (old(self).bit_width as nat)) * (old(self).bit_width as nat)),
            ),
            crate::amt::store::content_addressed(old(s).view_map())
                && crate::amt::store::cid_injective() ==> (r is Ok <==> i < pow2(
                ((64nat / (old(self).bit_width as nat)) * (old(self).bit_width as nat)),
            )),
            r is Ok ==> ({
                &&& final(self).wf(final(s).view_map())
                &&& (old(self).pruned(old(s).view_map()) ==> final(self).pruned(
                    final(s).view_map(),
                ))
                &&& forall|j: int|
                    final(self).sem(final(s).view_map(), j) == (if j == i as int {
                        Some(v@)
                    } else {
                        old(self).sem(old(s).view_map(), j)
                    })
            }),
            r is Err ==> *final(self) == *old(self) && (r->Err_0 == AmtError::CorruptStore
                || r->Err_0 == AmtError::IndexTooLarge),
            r matches Err(e) && e == AmtError::IndexTooLarge ==> i >= pow2(
                ((64nat / (old(self).bit_width as nat)) * (old(self).bit_width as nat)),
            ),
    {
        let ghost m0 = old(s).view_map();
        let ghost self0 = *old(self);
        let mut root = copy_opt_bytes(&self.root);
        let mut height = self.height;
        let bw = self.bit_width;
        proof {
            assert(opt_view(root) == self0.root_view());
        }
        while !capacity_fits(bw, height, i)
            invariant
                1 <= bw <= 8,
                bw * (height + 1) <= 64,
                bw == self0.bit_width,
                height >= self0.height,
                *self == self0,
                self0 == *old(self),
                m0 == old(s).view_map(),
                store_extends(m0, s.view_map()),
                crate::amt::store::content_addressed(m0)
                    ==> crate::amt::store::content_addressed(s.view_map()),
                slot_wf(s.view_map(), opt_view(root), height as nat, bw as nat),
                self0.pruned(m0) ==> slot_pruned(
                    s.view_map(),
                    opt_view(root),
                    height as nat,
                    bw as nat,
                ),
                forall|j: int|
                    slot_get(s.view_map(), opt_view(root), height as nat, bw as nat, j)
                        == self0.sem(m0, j),
            decreases 64 - height,
        {
            let ghost mc = s.view_map();
            proof {
                assert(height + 2 <= 66) by (nonlinear_arith)
                    requires
                        bw >= 1,
                        bw * (height + 1) <= 64,
                ;
                assert(bw * (height + 2) <= 600) by (nonlinear_arith)
                    requires
                        bw <= 8,
                        height + 2 <= 66,
                ;
            }
            // Once the root capacity covers every 64-bit index the loop
            // guard cannot hold, so a failed capacity test at the widest
            // representable height means the index cannot be supported.
            if bw * (height + 2) > 64 {
                proof {
                    // At the widest representable height the capacity is
                    // exactly two to the largest multiple of the bit width
                    // that fits in sixty-four.
                    assert((height as nat) + 1 == 64nat / (bw as nat) && ((bw as nat) * ((
                    height as nat) + 1)) == (64nat / (bw as nat)) * (bw as nat))
                        by (nonlinear_arith)
                            requires
                                1 <= bw,
                                bw * (height + 1) <= 64,
                                bw * (height + 2) > 64,
                    ;
                }
                return Err(AmtError::IndexTooLarge);
            }
            proof {
                assert(height + 2 <= 64) by (nonlinear_arith)
                    requires
                        bw >= 1,
                        bw * (height + 2) <= 64,
                ;
            }
            let is_empty = match &root {
                None => true,
                Some(_) => false,
            };
            if is_empty {
                proof {
                    assert forall|j: int|
                        slot_get(
                            s.view_map(),
                            opt_view(root),
                            (height + 1) as nat,
                            bw as nat,
                            j,
                        ) == self0.sem(m0, j) by {
                        assert(slot_get(s.view_map(), opt_view(root), height as nat, bw as nat, j)
                            is None);
                    }
                }
                height = height + 1;
            } else {
                let root_cid = match &root {
                    Some(c) => copy_bytes(c),
                    None => {
                        return Err(AmtError::CorruptStore);
                    },
                };
                proof {
                    assert(opt_view(root) == Some(root_cid@));
                    vstd::arithmetic::power2::lemma2_to64();
                    vstd::arithmetic::power2::lemma_pow2_strictly_increases(bw as nat, 9);
                }
                let width = pow2_u64(bw) as usize;
                let mut links = fresh_slots(width);
                let ghost fv = view_slots(links@);
                links.set(0, Some(root_cid));
                let ghost lv = view_slots(links@);
                proof {
                    assert(lv =~= fv.update(0, Some(opt_view(root)->Some_0)));
                }
                let ncid = match s.put_block(StoredBlock::Node(PersistNode::Links(links))) {
                    Ok(c) => c,
                    Err(e) => {
                        proof {
                            assert(store_extends(m0, mc));
                            assert(store_extends(mc, s.view_map()));
                            lemma_store_extends_trans(m0, mc, s.view_map());
                        }
                        return Err(e);
                    },
                };
                proof {
                    let rcv = opt_view(root)->Some_0;
                    let m1 = s.view_map();
                    let bwn = bw as nat;
                    let hn = height as nat;
                    lemma_store_extends_trans(m0, mc, m1);
                    node::lemma_slot_get_extends(mc, m1, Some(rcv), hn, bwn);
                    let spw = span(bwn, hn + 1);
                    assert(spw == subtree_cap(bwn, hn)) by {
                        assert(bwn * (hn + 1) == bwn * ((hn + 1) as nat)) by (nonlinear_arith)
                            requires
                                true,
                        ;
                    }
                    lemma_pow2_pos(bwn * (hn + 1));
                    assert(m1[ncid@] == BlockView::Links { links: lv });
                    assert(slot_wf(m1, Some(ncid@), hn + 1, bwn)) by {
                        assert forall|cc: int| 0 <= cc < lv.len() implies slot_wf(
                            m1,
                            lv[cc],
                            hn,
                            bwn,
                        ) by {
                            if cc == 0 {
                                assert(lv[0] == Some(rcv));
                            } else {
                                assert(lv[cc] == fv[cc]);
                                assert(lv[cc] is None);
                            }
                        }
                    }
                    assert forall|j: int|
                        slot_get(m1, Some(ncid@), hn + 1, bwn, j) == self0.sem(m0, j) by {
                        let spi = spw as int;
                        if 0 <= j < spi {
                            assert(j / spi == 0 && j % spi == j) by (nonlinear_arith)
                                requires
                                    0 <= j < spi,
                                    spi > 0,
                            ;
                            assert(lv[0] == Some(rcv));
                            assert(slot_get(m1, Some(ncid@), hn + 1, bwn, j) == slot_get(
                                m1,
                                Some(rcv),
                                hn,
                                bwn,
                                j,
                            ));
                            assert(slot_get(m1, Some(rcv), hn, bwn, j) == slot_get(
                                mc,
                                Some(rcv),
                                hn,
                                bwn,
                                j,
                            ));
                        } else {
                            if 0 <= j && j / spi < lv.len() {
                                let cj = j / spi;
                                assert(cj >= 1) by (nonlinear_arith)
                                    requires
                                        j >= spi,
                                        spi > 0,
                                        cj == j / spi,
                                ;
                                assert(lv[cj] == fv[cj]);
                                assert(lv[cj] is None);
                                assert(slot_get(m1, Some(ncid@), hn + 1, bwn, j) == slot_get(
                                    m1,
                                    lv[cj],
                                    hn,
                                    bwn,
                                    j % spi,
                                ));
                                assert(slot_get(m1, Some(ncid@), hn + 1, bwn, j) is None);
                            } else {
                                assert(slot_get(m1, Some(ncid@), hn + 1, bwn, j) is None);
                            }
                            node::lemma_slot_get_out_of_range(mc, Some(rcv), hn, bwn, j);
                            assert(slot_get(mc, Some(rcv), hn, bwn, j) is None);
                        }
                    }
                }
                proof {
                    if self0.pruned(m0) {
                        let m1 = s.view_map();
                        let bwn = bw as nat;
                        let hn = height as nat;
                        let rcv = opt_view(root)->Some_0;
                        lemma_slot_pruned_extends(mc, m1, Some(rcv), hn, bwn);
                        let w = choose|i: int| slot_get(m1, Some(rcv), hn, bwn, i) is Some;
                        if !(0 <= w < subtree_cap(bwn, hn)) {
                            node::lemma_slot_get_out_of_range(m1, Some(rcv), hn, bwn, w);
                        }
                        assert(slot_get(m1, Some(rcv), hn, bwn, w) == slot_get(
                            mc,
                            Some(rcv),
                            hn,
                            bwn,
                            w,
                        ));
                        assert(slot_get(m1, Some(ncid@), hn + 1, bwn, w) == self0.sem(m0, w));
                        assert(slot_get(m1, Some(ncid@), hn + 1, bwn, w) is Some);
                        assert forall|cc: int| 0 <= cc < lv.len() implies slot_pruned(
                            m1,
                            lv[cc],
                            hn,
                            bwn,
                        ) by {
                            if cc == 0 {
                                assert(lv[0] == Some(rcv));
                            } else {
                                assert(lv[cc] == fv[cc]);
                                assert(lv[cc] is None);
                            }
                        }
                        assert(slot_pruned(m1, Some(ncid@), hn + 1, bwn));
                    }
                }
                root = Some(ncid);
                height = height + 1;
            }
        }
        let ghost m_pre = s.view_map();
        let (ncid, old_v) = match set_slot(s, &root, height, bw, i, v) {
            Ok(x) => x,
            Err(e) => {
                proof {
                    lemma_store_extends_trans(m0, m_pre, s.view_map());
                    if crate::amt::store::content_addressed(m0)
                        && crate::amt::store::cid_injective() {
                        assert(crate::amt::store::content_addressed(m_pre));
                        assert(false);
                    }
                }
                return Err(e);
            },
        };
        let added: u64 = match old_v {
            None => 1,
            Some(_) => 0,
        };
        self.root = Some(ncid);
        self.height = height;
        self.count = crate::gas::sat_add_u64(self.count, added);
        proof {
            lemma_store_extends_trans(m0, m_pre, s.view_map());
            if self0.pruned(m0) {
                assert(slot_pruned(s.view_map(), Some(ncid@), height as nat, bw as nat));
            }
            // The growth loop stopped because the index fits; every
            // reachable capacity is at most two to the widest multiple of
            // the bit width that fits in sixty-four.
            assert(i < subtree_cap(bw as nat, height as nat));
            let fl = 64nat / (bw as nat);
            assert((height as nat) + 1 <= fl && (bw as nat) * ((height as nat) + 1) <= fl * (
            bw as nat)) by (nonlinear_arith)
                requires
                    1 <= bw,
                    bw * (height + 1) <= 64,
                    fl == 64nat / (bw as nat),
            ;
            if (bw as nat) * ((height as nat) + 1) < fl * (bw as nat) {
                vstd::arithmetic::power2::lemma_pow2_strictly_increases(
                    (bw as nat) * ((height as nat) + 1),
                    fl * (bw as nat),
                );
            }
            assert(subtree_cap(bw as nat, height as nat) <= pow2(fl * (bw as nat)));
            assert(self.count != 0) by {
                if self0.count == 0 {
                    assert(self0.root is None);
                    assert(self0.sem(m0, i as int) is None);
                    assert(opt_view(old_v) == self0.sem(m0, i as int));
                    assert(added == 1);
                }
            }
        }
        Ok(())
    }

    /// The value at index `i`; an index past the current capacity is empty
    /// without error.
    pub fn get(&self, s: &BlockStore, i: u64) -> (r: Result<Option<Vec<u8>>, AmtError>)
        requires
            self.wf(s.view_map()),
        ensures
            r is Ok,
            r matches Ok(o) ==> opt_view(o) == self.sem(s.view_map(), i as int),
    {
        if !self.fits(i) {
            proof {
                node::lemma_slot_get_out_of_range(
                    s.view_map(),
                    self.root_view(),
                    self.height as nat,
                    self.bit_width as nat,
                    i as int,
                );
            }
            return Ok(None);
        }
        get_slot(s, &self.root, self.height, self.bit_width, i)
    }

    /// Write the root descriptor block and return its content identifier.
    /// Flushing is idempotent: the identifier depends only on the handle's
    /// fields, and an unchanged handle writes nothing new. The one failure
    /// is a detected collision: a block with the root descriptor's
    /// identifier but different content already in the store; then nothing
    /// is written.
    pub fn flush(&self, s: &mut BlockStore) -> (r: Result<Vec<u8>, AmtError>)
        requires
            self.wf(old(s).view_map()),
        ensures
            store_extends(old(s).view_map(), final(s).view_map()),
            crate::amt::store::content_addressed(old(s).view_map())
                ==> crate::amt::store::content_addressed(final(s).view_map()),
            self.wf(final(s).view_map()),
            r is Err <==> old(s).view_map().contains_key(self.root_block_cid()) && !(old(
                s,
            ).view_map()[self.root_block_cid()] =~~= (BlockView::Root {
                bit_width: self.bit_width,
                height: self.height,
                count: self.count,
                root: self.root_view(),
            })),
            r matches Err(e) ==> e == AmtError::CorruptStore && final(s).view_map() == old(
                s,
            ).view_map(),
            r matches Ok(c) ==> c@ == self.root_block_cid() && final(s).view_map().contains_key(
                c@,
            ) && final(s).view_map()[c@] == (BlockView::Root {
                bit_width: self.bit_width,
                height: self.height,
                count: self.count,
                root: self.root_view(),
            }),
    {
        let root = copy_opt_bytes(&self.root);
        let block = StoredBlock::Root {
            bit_width: self.bit_width,
            height: self.height,
            count: self.count,
            root,
        };
        proof {
            assert(view_block(block) =~~= (BlockView::Root {
                bit_width: self.bit_width,
                height: self.height,
                count: self.count,
                root: self.root_view(),
            }));
        }
        let r = s.put_block(block);
        proof {
            node::lemma_slot_get_extends(
                old(s).view_map(),
                s.view_map(),
                self.root_view(),
                self.height as nat,
                self.bit_width as nat,
            );
        }
        match r {
            Ok(c) => Ok(c),
            Err(e) => Err(e),
        }
    }

    /// Load the array whose root descriptor is stored under `cid`. A root
    /// descriptor recording the asked-for bit width always loads; an
    /// absent block, a block that is no root descriptor, and a descriptor
    /// with another bit width each fail with their own error.
    pub fn load(s: &BlockStore, cid: &Vec<u8>, bit_width: u32) -> (r: Result<Amt, AmtError>)
        ensures
            r is Ok <==> s.view_map().contains_key(cid@) && (s.view_map()[cid@] matches
                BlockView::Root { bit_width: stored_bw, .. } && stored_bw == bit_width),
            r matches Ok(a) ==> s.view_map().contains_key(cid@) && s.view_map()[cid@]
                == (BlockView::Root {
                bit_width,
                height: a.height,
                count: a.count,
                root: a.root_view(),
            }) && a.bit_width == bit_width,
            r matches Err(e) ==> (e == AmtError::RootNotFound <==> !s.view_map().contains_key(
                cid@,
            )) && (e == AmtError::ConfigMismatch <==> s.view_map().contains_key(cid@) && (
            s.view_map()[cid@] matches BlockView::Root { bit_width: stored_bw, .. } && stored_bw
                != bit_width)) && (e == AmtError::CorruptStore <==> s.view_map().contains_key(
                cid@,
            ) && !(s.view_map()[cid@] is Root)),
    {
        match s.get(cid) {
            Some(StoredBlock::Root { bit_width: bw2, height, count, root }) => {
                if bw2 != bit_width {
                    return Err(AmtError::ConfigMismatch);
                }
                Ok(Amt { bit_width, height, count, root })
            },
            Some(_) => Err(AmtError::CorruptStore),
            None => Err(AmtError::RootNotFound),
        }
    }
}

/// The flush / load round trip: a handle loaded from a flushed root reads
/// the same value at every index as the handle that was flushed, in the
/// store as the flush left it.
pub proof fn lemma_flush_load_round_trip(m0: StoreMap, m1: StoreMap, a: Amt, b: Amt)
    requires
        a.wf(m0),
        store_extends(m0, m1),
        b.bit_width == a.bit_width,
        b.height == a.height,
        b.count == a.count,
        b.root_view() == a.root_view(),
    ensures
        b.wf(m1),
        forall|j: int| b.sem(m1, j) == a.sem(m0, j),
{
    node::lemma_slot_get_extends(m0, m1, a.root_view(), a.height as nat, a.bit_width as nat);
}

impl Amt {
    /// The content identifier the root descriptor of this handle encodes
    /// to: a function of the handle's fields alone, which is what makes a
    /// flush deterministic and idempotent.
    pub open spec fn root_block_cid(self) -> Seq<u8> {
        crate::amt::store::cid_v1(
            crate::amt::store::DAG_CODEC as u64,
            crate::hash::sha256_of(
                crate::amt::store::enc_block(
                    BlockView::Root {
                        bit_width: self.bit_width,
                        height: self.height,
                        count: self.count,
                        root: self.root_view(),
                    },
                ),
            ),
        )
    }

    /// The trie's entries in ascending index order.
    pub fn entries(&self, s: &BlockStore) -> (r: Result<Vec<(u64, Vec<u8>)>, AmtError>)
        requires
            self.wf(s.view_map()),
        ensures
            r is Ok,
            r matches Ok(es) ==> ({
                let m = s.view_map();
                &&& forall|k1: int, k2: int|
                    0 <= k1 < k2 < es@.len() ==> es@[k1].0 < es@[k2].0
                &&& forall|k: int|
                    0 <= k < es@.len() ==> self.sem(m, (#[trigger] es@[k]).0 as int) == Some(
                        es@[k].1@,
                    )
                &&& forall|i: int|
                    self.sem(s.view_map(), i) is Some ==> exists|k: int|
                        0 <= k < es@.len() && (#[trigger] es@[k]).0 == i
            }),
    {
        let ghost m = s.view_map();
        proof {
            let bits = (self.bit_width as nat) * ((self.height as nat) + 1);
            vstd::arithmetic::power2::lemma2_to64_rest();
            if bits < 64 {
                vstd::arithmetic::power2::lemma_pow2_strictly_increases(bits, 64);
            }
            assert(subtree_cap(self.bit_width as nat, self.height as nat) <= pow2(64));
        }
        let chs = match crate::amt::diff::add_all(
            s,
            &self.root,
            self.height,
            self.bit_width,
            0,
        ) {
            Ok(x) => x,
            Err(_) => {
                proof {
                    assert(false);
                }
                return Err(AmtError::CorruptStore);
            },
        };
        let mut es: Vec<(u64, Vec<u8>)> = Vec::new();
        let mut k: usize = 0;
        while k < chs.len()
            invariant
                k <= chs@.len(),
                m == s.view_map(),
                es@.len() == k,
                forall|j: int|
                    0 <= j < k ==> (#[trigger] es@[j]).0 == chs@[j].key && es@[j].1@ == opt_view(
                        chs@[j].after,
                    )->Some_0,
                forall|j: int|
                    0 <= j < chs@.len() ==> crate::amt::diff::describes(
                        None,
                        self.sem(m, (#[trigger] chs@[j]).key as int),
                        chs@[j],
                    ),
                crate::amt::diff::changes_sorted(chs@),
            decreases chs@.len() - k,
        {
            match &chs[k].after {
                Some(v) => {
                    es.push((chs[k].key, copy_bytes(v)));
                },
                None => {
                    proof {
                        assert(false);
                    }
                    return Err(AmtError::CorruptStore);
                },
            }
            k = k + 1;
        }
        proof {
            assert forall|i: int| self.sem(m, i) is Some implies exists|j: int|
                0 <= j < es@.len() && (#[trigger] es@[j]).0 == i by {
                let window = subtree_cap(self.bit_width as nat, self.height as nat) as int;
                if 0 <= i < window {
                    assert(crate::amt::diff::key_present(chs@, 0 + i));
                    let j = choose|j: int| 0 <= j < chs@.len() && (#[trigger] chs@[j]).key == i;
                    assert(es@[j].0 == i);
                } else {
                    node::lemma_slot_get_out_of_range(
                        m,
                        self.root_view(),
                        self.height as nat,
                        self.bit_width as nat,
                        i,
                    );
                }
            }
        }
        Ok(es)
    }
}

/// Flushing is a function of the handle alone: two handles with equal
/// fields write root descriptors with the same content identifier,
/// whatever their stores held; in particular flushing twice returns the
/// same identifier.
pub proof fn lemma_flush_deterministic(a: Amt, b: Amt)
    requires
        a.bit_width == b.bit_width,
        a.height == b.height,
        a.count == b.count,
        a.root_view() == b.root_view(),
    ensures
        a.root_block_cid() == b.root_block_cid(),
{
}

/// Canonicity of the serialized form: in one content-addressed store, two
/// well-formed, pruned tries with the same configuration, height and count
/// that hold the same value at every index flush to the same root
/// identifier, whatever order their entries were inserted in.
pub proof fn lemma_canonical_root_cid(m: StoreMap, a: Amt, b: Amt)
    requires
        crate::amt::store::content_addressed(m),
        a.wf(m),
        b.wf(m),
        a.pruned(m),
        b.pruned(m),
        a.bit_width == b.bit_width,
        a.height == b.height,
        a.count == b.count,
        forall|i: int| a.sem(m, i) == b.sem(m, i),
    ensures
        a.root_view() == b.root_view(),
        a.root_block_cid() == b.root_block_cid(),
{
    assert forall|i: int|
        slot_get(m, a.root_view(), a.height as nat, a.bit_width as nat, i) == slot_get(
            m,
            b.root_view(),
            a.height as nat,
            a.bit_width as nat,
        i) by {
        assert(a.sem(m, i) == b.sem(m, i));
    }
    node::lemma_canonical_slot(
        m,
        a.root_view(),
        b.root_view(),
        a.height as nat,
        a.bit_width as nat,
    );
}

} // verus!
