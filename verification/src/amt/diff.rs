//! A structural diff of two array-mapped tries over one block store.
//!
//! The diff descends both trees in lock step. When the heights differ, the
//! taller tree's extra levels are walked with the shorter tree standing in
//! slot zero. Children that carry the same content identifier are skipped
//! without being read: over one store, equal identifiers resolve to equal
//! subtrees, which makes the short circuit sound and the diff linear in
//! the change set rather than the tree size.

use vstd::arithmetic::power2::{lemma_pow2_adds, lemma_pow2_pos, pow2};
use vstd::prelude::*;

use crate::amt::node::{slot_get, slot_wf, span, subtree_cap, view_slots, PersistNode, StoredBlock};
use crate::amt::store::{bytes_eq, copy_opt_bytes, AmtError, BlockStore};
use crate::amt::{opt_view, pow2_u64, Amt};

verus! {

/// How one index changed between the two tries.
#[derive(Clone, Copy, Debug, PartialEq, Eq, Structural, Hash)]
pub enum ChangeType {
    Add,
    Remove,
    Modify,
}

/// One changed index: its kind, the index, and the values before and
/// after.
#[derive(Debug)]
pub struct Change {
    pub change_type: ChangeType,
    pub key: u64,
    pub before: Option<Vec<u8>>,
    pub after: Option<Vec<u8>>,
}

/// The heights and bit width a node is traversed under.
#[derive(Clone, Copy, Debug, PartialEq, Eq, Structural, Hash)]
pub struct NodeContext {
    pub height: u32,
    pub bit_width: u32,
}

impl NodeContext {
    /// How many indices each child of a node at this context's height
    /// covers.
    pub fn nodes_at_height(&self) -> (r: u64)
        requires
            self.bit_width * self.height < 64,
        ensures
            r == span(self.bit_width as nat, self.height as nat),
    {
        proof {
            assert(self.bit_width * self.height == (self.bit_width as nat) * (
            self.height as nat)) by (nonlinear_arith)
                requires
                    true,
            ;
        }
        pow2_u64(self.bit_width * self.height)
    }
}

/// Whether `c` correctly describes the transition from `prev` to `curr`
/// at its index. In every arm the two sides differ, so a change list in
/// which each entry describes the two tries' values at its key lists only
/// indices of the symmetric difference.
pub open spec fn describes(prev: Option<Seq<u8>>, curr: Option<Seq<u8>>, c: Change) -> bool {
    match c.change_type {
        ChangeType::Add => prev is None && curr is Some && c.before is None && opt_view(c.after)
            == curr,
        ChangeType::Remove => prev is Some && curr is None && opt_view(c.before) == prev
            && c.after is None,
        ChangeType::Modify => prev is Some && curr is Some && prev != curr && opt_view(c.before)
            == prev && opt_view(c.after) == curr,
    }
}

/// Keys strictly increase along the list.
pub open spec fn changes_sorted(chs: Seq<Change>) -> bool {
    forall|k1: int, k2: int| 0 <= k1 < k2 < chs.len() ==> chs[k1].key < chs[k2].key
}

/// Every key lies in `[lo, hi)`.
pub open spec fn keys_in(chs: Seq<Change>, lo: int, hi: int) -> bool {
    forall|k: int| 0 <= k < chs.len() ==> lo <= (#[trigger] chs[k]).key < hi
}

/// Some change in the list has key `key`.
pub open spec fn key_present(chs: Seq<Change>, key: int) -> bool {
    exists|k: int| 0 <= k < chs.len() && (#[trigger] chs[k]).key == key
}

/// Concatenating a sorted block of smaller keys with a sorted block of
/// larger keys stays sorted.
proof fn lemma_sorted_concat(a: Seq<Change>, b: Seq<Change>, lo: int, mid: int, hi: int)
    requires
        changes_sorted(a),
        changes_sorted(b),
        keys_in(a, lo, mid),
        keys_in(b, mid, hi),
        lo <= mid <= hi,
    ensures
        changes_sorted(a + b),
        keys_in(a + b, lo, hi),
        forall|key: int| key_present(a + b, key) <==> key_present(a, key) || key_present(b, key),
{
    let c = a + b;
    assert forall|k1: int, k2: int| 0 <= k1 < k2 < c.len() implies c[k1].key < c[k2].key by {
        if k2 < a.len() {
            assert(c[k1] == a[k1] && c[k2] == a[k2]);
        } else if k1 >= a.len() {
            assert(c[k1] == b[k1 - a.len()] && c[k2] == b[k2 - a.len()]);
        } else {
            assert(c[k1] == a[k1] && c[k2] == b[k2 - a.len()]);
        }
    }
    assert forall|k: int| 0 <= k < c.len() implies lo <= (#[trigger] c[k]).key < hi by {
        if k < a.len() {
            assert(c[k] == a[k]);
        } else {
            assert(c[k] == b[k - a.len()]);
        }
    }
    assert forall|key: int|
        key_present(c, key) <==> key_present(a, key) || key_present(b, key) by {
        if key_present(a, key) {
            let k = choose|k: int| 0 <= k < a.len() && a[k].key == key;
            assert(c[k] == a[k]);
            assert(key_present(c, key));
        }
        if key_present(b, key) {
            let k = choose|k: int| 0 <= k < b.len() && b[k].key == key;
            assert(c[k + a.len()] == b[k]);
            assert(key_present(c, key));
        }
        if key_present(c, key) {
            let k = choose|k: int| 0 <= k < c.len() && c[k].key == key;
            if k < a.len() {
                assert(a[k] == c[k]);
                assert(key_present(a, key));
            } else {
                assert(b[k - a.len()] == c[k]);
                assert(key_present(b, key));
            }
        }
    }
}

/// Collect every present index of the subtree rooted at `slot` at height
/// `h`, as removals (`before` filled) or additions (`after` filled), in
/// ascending index order, with indices shifted by `offset`.
fn collect_changes(
    s: &BlockStore,
    slot: &Option<Vec<u8>>,
    h: u32,
    bw: u32,
    offset: u64,
    removing: bool,
) -> (r: Result<Vec<Change>, AmtError>)
    requires
        1 <= bw <= 8,
        bw * (h + 1) <= 64,
        slot_wf(s.view_map(), opt_view(*slot), h as nat, bw as nat),
        offset + subtree_cap(bw as nat, h as nat) <= 0x1_0000_0000_0000_0000,
    ensures
        r is Ok,
        r matches Ok(chs) ==> ({
            let m = s.view_map();
            let sv = opt_view(*slot);
            let cap = subtree_cap(bw as nat, h as nat) as int;
            &&& changes_sorted(chs@)
            &&& keys_in(chs@, offset as int, offset + cap)
            &&& forall|k: int|
                0 <= k < chs@.len() ==> {
                    let g = slot_get(m, sv, h as nat, bw as nat, (#[trigger] chs@[k]).key - offset);
                    if removing {
                        describes(g, None, chs@[k])
                    } else {
                        describes(None, g, chs@[k])
                    }
                }
            &&& forall|i: int|
                0 <= i < cap && slot_get(m, sv, h as nat, bw as nat, i) is Some ==> key_present(
                    chs@,
                    offset + i,
                )
        }),
    decreases h,
{
    let ghost m = s.view_map();
    let cid = match slot {
        Some(c) => c,
        None => {
            return Ok(Vec::new());
        },
    };
    if h == 0 {
        proof {
            assert(bw * (0 + 1) == bw) by (nonlinear_arith)
                requires
                    true,
            ;
            assert(subtree_cap(bw as nat, 0) == pow2(bw as nat));
        }
        let vals = match s.get(cid) {
            Some(StoredBlock::Node(PersistNode::Leaf(vs))) => vs,
            _ => {
                return Err(AmtError::CorruptStore);
            },
        };
        let ghost vv = view_slots(vals@);
        let mut out: Vec<Change> = Vec::new();
        let mut idx: usize = 0;
        while idx < vals.len()
            invariant
                idx <= vals@.len(),
                vals@.len() == subtree_cap(bw as nat, h as nat),
                h == 0,
                offset + vals@.len() <= 0x1_0000_0000_0000_0000,
                vv == view_slots(vals@),
                forall|i: int|
                    0 <= i < vals@.len() ==> slot_get(m, opt_view(*slot), h as nat, bw as nat, i)
                        == vv[i],
                changes_sorted(out@),
                keys_in(out@, offset as int, offset + idx as int),
                forall|k: int|
                    0 <= k < out@.len() ==> {
                        let g = slot_get(
                            m,
                            opt_view(*slot),
                            h as nat,
                            bw as nat,
                            (#[trigger] out@[k]).key - offset,
                        );
                        if removing {
                            describes(g, None, out@[k])
                        } else {
                            describes(None, g, out@[k])
                        }
                    },
                forall|i: int| 0 <= i < idx && vv[i] is Some ==> key_present(out@, offset + i),
            decreases vals@.len() - idx,
        {
            let ghost out_prev = out@;
            match &vals[idx] {
                Some(v) => {
                    let vc = crate::amt::store::copy_bytes(v);
                    let key = offset + idx as u64;
                    if removing {
                        out.push(
                            Change {
                                change_type: ChangeType::Remove,
                                key,
                                before: Some(vc),
                                after: None,
                            },
                        );
                    } else {
                        out.push(
                            Change {
                                change_type: ChangeType::Add,
                                key,
                                before: None,
                                after: Some(vc),
                            },
                        );
                    }
                    proof {
                        assert(vv[idx as int] == Some(v@));
                        assert forall|i: int|
                            0 <= i < idx + 1 && vv[i] is Some implies key_present(
                            out@,
                            offset + i,
                        ) by {
                            if i < idx {
                                assert(key_present(out_prev, offset + i));
                                let k = choose|k: int|
                                    0 <= k < out_prev.len() && out_prev[k].key == offset + i;
                                assert(out@[k] == out_prev[k]);
                            } else {
                                assert(out@[out@.len() - 1].key == offset + i);
                            }
                        }
                    }
                },
                None => {
                    proof {
                        assert forall|i: int|
                            0 <= i < idx + 1 && vv[i] is Some implies key_present(
                            out@,
                            offset + i,
                        ) by {
                            if i < idx {
                                assert(key_present(out_prev, offset + i));
                            } else {
                                assert(vv[i] is None);
                            }
                        }
                    }
                },
            }
            idx = idx + 1;
        }
        Ok(out)
    } else {
        let links = match s.get(cid) {
            Some(StoredBlock::Node(PersistNode::Links(ls))) => ls,
            _ => {
                return Err(AmtError::CorruptStore);
            },
        };
        let ghost lv = view_slots(links@);
        proof {
            assert(bw * h == (bw as nat) * (h as nat)) by (nonlinear_arith)
                requires
                    true,
            ;
            assert(bw * h < 64) by (nonlinear_arith)
                requires
                    bw >= 1,
                    bw * (h + 1) <= 64,
            ;
        }
        let ctx = NodeContext { height: h, bit_width: bw };
        let sp = ctx.nodes_at_height();
        let ghost spi = span(bw as nat, h as nat) as int;
        proof {
            lemma_pow2_pos((bw as nat) * (h as nat));
            assert(subtree_cap(bw as nat, h as nat) == pow2(bw as nat) * span(bw as nat, h as nat))
                by {
                lemma_pow2_adds(bw as nat, (bw as nat) * (h as nat));
                assert((bw as nat) * ((h as nat) + 1) == (bw as nat) + (bw as nat) * (h as nat))
                    by (nonlinear_arith)
                        requires
                            true,
                ;
            }
            assert(bw * ((h - 1) + 1) <= 64) by (nonlinear_arith)
                requires
                    h >= 1,
                    bw >= 1,
                    bw * (h + 1) <= 64,
            ;
            assert((bw as nat) * (((h - 1) as nat) + 1) == (bw as nat) * (h as nat))
                by (nonlinear_arith)
                    requires
                        h >= 1,
            ;
            assert(subtree_cap(bw as nat, (h - 1) as nat) == span(bw as nat, h as nat));
        }
        let mut out: Vec<Change> = Vec::new();
        let mut c: usize = 0;
        while c < links.len()
            invariant
                c <= links@.len(),
                1 <= bw <= 8,
                h >= 1,
                bw * (h + 1) <= 64,
                bw * ((h - 1) + 1) <= 64,
                links@.len() == pow2(bw as nat),
                lv == view_slots(links@),
                m == s.view_map(),
                spi == span(bw as nat, h as nat),
                spi == sp,
                sp > 0,
                subtree_cap(bw as nat, (h - 1) as nat) == spi,
                subtree_cap(bw as nat, h as nat) == links@.len() * spi,
                offset + subtree_cap(bw as nat, h as nat) <= 0x1_0000_0000_0000_0000,
                slot_wf(s.view_map(), opt_view(*slot), h as nat, bw as nat),
                s.view_map().contains_key(cid@),
                opt_view(*slot) == Some(cid@),
                s.view_map()[cid@] matches crate::amt::node::BlockView::Links { links: l } && l
                    == lv,
                forall|cc: int| 0 <= cc < lv.len() ==> slot_wf(m, #[trigger] lv[cc], (h - 1) as nat, bw as nat),
                changes_sorted(out@),
                keys_in(out@, offset as int, offset + c * spi),
                forall|k: int|
                    0 <= k < out@.len() ==> {
                        let g = slot_get(
                            m,
                            opt_view(*slot),
                            h as nat,
                            bw as nat,
                            (#[trigger] out@[k]).key - offset,
                        );
                        if removing {
                            describes(g, None, out@[k])
                        } else {
                            describes(None, g, out@[k])
                        }
                    },
                forall|i: int|
                    0 <= i < c * spi && slot_get(m, opt_view(*slot), h as nat, bw as nat, i)
                        is Some ==> key_present(out@, offset + i),
            decreases links@.len() - c,
        {
            proof {
                assert(c * spi + spi == (c + 1) * spi) by (nonlinear_arith)
                    requires
                        true,
                ;
                assert((c + 1) * spi <= links@.len() * spi) by (nonlinear_arith)
                    requires
                        c + 1 <= links@.len(),
                        spi > 0,
                ;
            }
            let child = copy_opt_bytes(&links[c]);
            let child_offset = offset + (c as u64) * sp;
            let mut sub = match collect_changes(s, &child, h - 1, bw, child_offset, removing) {
                Ok(x) => x,
                Err(e) => {
                    return Err(e);
                },
            };
            let ghost out_prev = out@;
            let ghost sub_v = sub@;
            out.append(&mut sub);
            proof {
                lemma_sorted_concat(
                    out_prev,
                    sub_v,
                    offset as int,
                    child_offset as int,
                    child_offset + spi,
                );
                assert(out@ == out_prev + sub_v);
                // Lift each child-level description to the parent node.
                assert forall|k: int|
                    0 <= k < out@.len() implies {
                    let g = slot_get(
                        m,
                        opt_view(*slot),
                        h as nat,
                        bw as nat,
                        (#[trigger] out@[k]).key - offset,
                    );
                    if removing {
                        describes(g, None, out@[k])
                    } else {
                        describes(None, g, out@[k])
                    }
                } by {
                    if k < out_prev.len() {
                        assert(out@[k] == out_prev[k]);
                    } else {
                        assert(out@[k] == sub_v[k - out_prev.len()]);
                        let key = out@[k].key as int;
                        let i = key - offset;
                        let si = key - child_offset;
                        assert(c * spi <= i < (c + 1) * spi);
                        assert(i / spi == c && i % spi == si) by (nonlinear_arith)
                            requires
                                spi > 0,
                                c * spi <= i < (c + 1) * spi,
                                si == i - c * spi,
                        ;
                        assert(slot_get(m, opt_view(*slot), h as nat, bw as nat, i) == slot_get(
                            m,
                            lv[c as int],
                            (h - 1) as nat,
                            bw as nat,
                            si,
                        ));
                    }
                }
                // Completeness over the enlarged prefix of the window.
                assert forall|i: int|
                    0 <= i < (c + 1) * spi && slot_get(m, opt_view(*slot), h as nat, bw as nat, i)
                        is Some implies key_present(out@, offset + i) by {
                    if i < c * spi {
                        assert(key_present(out_prev, offset + i));
                        let k = choose|k: int|
                            0 <= k < out_prev.len() && out_prev[k].key == offset + i;
                        assert(out@[k] == out_prev[k]);
                    } else {
                        let si = i - c * spi;
                        assert(i / spi == c && i % spi == si) by (nonlinear_arith)
                            requires
                                spi > 0,
                                c * spi <= i < (c + 1) * spi,
                                si == i - c * spi,
                        ;
                        assert(slot_get(m, opt_view(*slot), h as nat, bw as nat, i) == slot_get(
                            m,
                            lv[c as int],
                            (h - 1) as nat,
                            bw as nat,
                            si,
                        ));
                        assert(key_present(sub_v, child_offset + si));
                        let k = choose|k: int|
                            0 <= k < sub_v.len() && sub_v[k].key == child_offset + si;
                        assert(out@[k + out_prev.len()] == sub_v[k]);
                        assert(child_offset + si == offset + i);
                    }
                }
            }
            c = c + 1;
        }
        proof {
            assert(links@.len() * spi == subtree_cap(bw as nat, h as nat));
        }
        Ok(out)
    }
}

/// Every present index of the subtree, reported as additions.
pub(crate) fn add_all(s: &BlockStore, slot: &Option<Vec<u8>>, h: u32, bw: u32, offset: u64) -> (r: Result<
    Vec<Change>,
    AmtError,
>)
    requires
        1 <= bw <= 8,
        bw * (h + 1) <= 64,
        slot_wf(s.view_map(), opt_view(*slot), h as nat, bw as nat),
        offset + subtree_cap(bw as nat, h as nat) <= 0x1_0000_0000_0000_0000,
    ensures
        r is Ok,
        r matches Ok(chs) ==> ({
            let m = s.view_map();
            let sv = opt_view(*slot);
            let cap = subtree_cap(bw as nat, h as nat) as int;
            &&& changes_sorted(chs@)
            &&& keys_in(chs@, offset as int, offset + cap)
            &&& forall|k: int|
                0 <= k < chs@.len() ==> describes(
                    None,
                    slot_get(m, sv, h as nat, bw as nat, (#[trigger] chs@[k]).key - offset),
                    chs@[k],
                )
            &&& forall|i: int|
                0 <= i < cap && slot_get(m, sv, h as nat, bw as nat, i) is Some ==> key_present(
                    chs@,
                    offset + i,
                )
        }),
{
    collect_changes(s, slot, h, bw, offset, false)
}

/// Every present index of the subtree, reported as removals.
fn remove_all(s: &BlockStore, slot: &Option<Vec<u8>>, h: u32, bw: u32, offset: u64) -> (r: Result<
    Vec<Change>,
    AmtError,
>)
    requires
        1 <= bw <= 8,
        bw * (h + 1) <= 64,
        slot_wf(s.view_map(), opt_view(*slot), h as nat, bw as nat),
        offset + subtree_cap(bw as nat, h as nat) <= 0x1_0000_0000_0000_0000,
    ensures
        r is Ok,
        r matches Ok(chs) ==> ({
            let m = s.view_map();
            let sv = opt_view(*slot);
            let cap = subtree_cap(bw as nat, h as nat) as int;
            &&& changes_sorted(chs@)
            &&& keys_in(chs@, offset as int, offset + cap)
            &&& forall|k: int|
                0 <= k < chs@.len() ==> describes(
                    slot_get(m, sv, h as nat, bw as nat, (#[trigger] chs@[k]).key - offset),
                    None,
                    chs@[k],
                )
            &&& forall|i: int|
                0 <= i < cap && slot_get(m, sv, h as nat, bw as nat, i) is Some ==> key_present(
                    chs@,
                    offset + i,
                )
        }),
{
    collect_changes(s, slot, h, bw, offset, true)
}

/// The diff of two leaf rows of equal width: one change per slot pair
/// whose two sides differ, in ascending index order. Pairs holding the
/// same value on both sides are not part of the symmetric difference and
/// produce nothing.
fn diff_leaves(prev_vals: &crate::amt::node::Slots, curr_vals: &crate::amt::node::Slots, offset: u64) -> (r:
    Vec<Change>)
    requires
        prev_vals@.len() == curr_vals@.len(),
        offset + prev_vals@.len() <= 0x1_0000_0000_0000_0000,
    ensures
        ({
            let pv = view_slots(prev_vals@);
            let cv = view_slots(curr_vals@);
            &&& changes_sorted(r@)
            &&& keys_in(r@, offset as int, offset + pv.len())
            &&& forall|k: int|
                0 <= k < r@.len() ==> describes(
                    pv[(#[trigger] r@[k]).key - offset],
                    cv[r@[k].key - offset],
                    r@[k],
                )
            &&& forall|i: int|
                0 <= i < pv.len() && pv[i] != cv[i] ==> key_present(r@, offset + i)
        }),
{
    let ghost pv = view_slots(prev_vals@);
    let ghost cv = view_slots(curr_vals@);
    let mut out: Vec<Change> = Vec::new();
    let mut idx: usize = 0;
    while idx < prev_vals.len()
        invariant
            idx <= prev_vals@.len(),
            prev_vals@.len() == curr_vals@.len(),
            offset + prev_vals@.len() <= 0x1_0000_0000_0000_0000,
            pv == view_slots(prev_vals@),
            cv == view_slots(curr_vals@),
            changes_sorted(out@),
            keys_in(out@, offset as int, offset + idx as int),
            forall|k: int|
                0 <= k < out@.len() ==> describes(
                    pv[(#[trigger] out@[k]).key - offset],
                    cv[out@[k].key - offset],
                    out@[k],
                ),
            forall|i: int| 0 <= i < idx && pv[i] != cv[i] ==> key_present(out@, offset + i),
        decreases prev_vals@.len() - idx,
    {
        let ghost out_prev = out@;
        let key = offset + idx as u64;
        let mut pushed = false;
        match (&prev_vals[idx], &curr_vals[idx]) {
            (None, None) => {},
            (None, Some(cval)) => {
                out.push(
                    Change {
                        change_type: ChangeType::Add,
                        key,
                        before: None,
                        after: Some(crate::amt::store::copy_bytes(cval)),
                    },
                );
                pushed = true;
            },
            (Some(pval), None) => {
                out.push(
                    Change {
                        change_type: ChangeType::Remove,
                        key,
                        before: Some(crate::amt::store::copy_bytes(pval)),
                        after: None,
                    },
                );
                pushed = true;
            },
            (Some(pval), Some(cval)) => {
                if !bytes_eq(pval, cval) {
                    out.push(
                        Change {
                            change_type: ChangeType::Modify,
                            key,
                            before: Some(crate::amt::store::copy_bytes(pval)),
                            after: Some(crate::amt::store::copy_bytes(cval)),
                        },
                    );
                    pushed = true;
                }
            },
        }
        proof {
            if pushed {
                assert forall|i: int|
                    0 <= i < idx + 1 && pv[i] != cv[i] implies key_present(out@, offset + i) by {
                    if i < idx {
                        assert(key_present(out_prev, offset + i));
                        let k = choose|k: int|
                            0 <= k < out_prev.len() && out_prev[k].key == offset + i;
                        assert(out@[k] == out_prev[k]);
                    } else {
                        assert(out@[out@.len() - 1].key == offset + i);
                    }
                }
            } else {
                assert(pv[idx as int] == cv[idx as int]);
            }
        }
        idx = idx + 1;
    }
    out
}

/// The diff of the two subtrees rooted at `prev` (at height `prev_h`) and
/// `curr` (at height `curr_h`), with indices shifted by `offset`: a sorted
/// list of changes that together carry the first subtree's contents to the
/// second's. Children of one store that share a content identifier are
/// skipped unread.
fn diff_slot(
    s: &BlockStore,
    prev: &Option<Vec<u8>>,
    prev_h: u32,
    curr: &Option<Vec<u8>>,
    curr_h: u32,
    bw: u32,
    offset: u64,
) -> (r: Result<Vec<Change>, AmtError>)
    requires
        1 <= bw <= 8,
        bw * (prev_h + 1) <= 64,
        bw * (curr_h + 1) <= 64,
        slot_wf(s.view_map(), opt_view(*prev), prev_h as nat, bw as nat),
        slot_wf(s.view_map(), opt_view(*curr), curr_h as nat, bw as nat),
        offset + subtree_cap(bw as nat, (if prev_h >= curr_h { prev_h } else { curr_h }) as nat)
            <= 0x1_0000_0000_0000_0000,
    ensures
        r is Ok,
        r matches Ok(chs) ==> ({
            let m = s.view_map();
            let pvw = opt_view(*prev);
            let cvw = opt_view(*curr);
            let window = subtree_cap(
                bw as nat,
                (if prev_h >= curr_h { prev_h } else { curr_h }) as nat,
            ) as int;
            &&& changes_sorted(chs@)
            &&& keys_in(chs@, offset as int, offset + window)
            &&& forall|k: int|
                0 <= k < chs@.len() ==> describes(
                    slot_get(m, pvw, prev_h as nat, bw as nat, (#[trigger] chs@[k]).key - offset),
                    slot_get(m, cvw, curr_h as nat, bw as nat, chs@[k].key - offset),
                    chs@[k],
                )
            &&& forall|i: int|
                0 <= i < window && slot_get(m, pvw, prev_h as nat, bw as nat, i) != slot_get(
                    m,
                    cvw,
                    curr_h as nat,
                    bw as nat,
                    i,
                ) ==> key_present(chs@, offset + i)
        }),
    decreases prev_h + curr_h, 1int,
{
    let ghost m = s.view_map();
    let ghost pvw = opt_view(*prev);
    let ghost cvw = opt_view(*curr);
    match (prev, curr) {
        (None, None) => Ok(Vec::new()),
        (Some(_), None) => {
            proof {
                if prev_h < curr_h {
                    assert((bw as nat) * ((prev_h as nat) + 1) < (bw as nat) * ((curr_h as nat)
                        + 1)) by (nonlinear_arith)
                        requires
                            bw >= 1,
                            prev_h < curr_h,
                    ;
                    vstd::arithmetic::power2::lemma_pow2_strictly_increases(
                        (bw as nat) * ((prev_h as nat) + 1),
                        (bw as nat) * ((curr_h as nat) + 1),
                    );
                }
            }
            let chs = remove_all(s, prev, prev_h, bw, offset)?;
            proof {
                let window = subtree_cap(
                    bw as nat,
                    (if prev_h >= curr_h { prev_h } else { curr_h }) as nat,
                ) as int;
                let capp = subtree_cap(bw as nat, prev_h as nat) as int;
                assert(capp <= window);
                assert forall|i: int|
                    0 <= i < window && slot_get(m, pvw, prev_h as nat, bw as nat, i) != slot_get(
                        m,
                        cvw,
                        curr_h as nat,
                        bw as nat,
                        i,
                    ) implies key_present(chs@, offset + i) by {
                    if i >= capp {
                        crate::amt::node::lemma_slot_get_out_of_range(
                            m,
                            pvw,
                            prev_h as nat,
                            bw as nat,
                            i,
                        );
                    }
                }
            }
            Ok(chs)
        },
        (None, Some(_)) => {
            proof {
                if curr_h < prev_h {
                    assert((bw as nat) * ((curr_h as nat) + 1) < (bw as nat) * ((prev_h as nat)
                        + 1)) by (nonlinear_arith)
                        requires
                            bw >= 1,
                            curr_h < prev_h,
                    ;
                    vstd::arithmetic::power2::lemma_pow2_strictly_increases(
                        (bw as nat) * ((curr_h as nat) + 1),
                        (bw as nat) * ((prev_h as nat) + 1),
                    );
                }
            }
            let chs = add_all(s, curr, curr_h, bw, offset)?;
            proof {
                let window = subtree_cap(
                    bw as nat,
                    (if prev_h >= curr_h { prev_h } else { curr_h }) as nat,
                ) as int;
                let capc = subtree_cap(bw as nat, curr_h as nat) as int;
                assert(capc <= window);
                assert forall|i: int|
                    0 <= i < window && slot_get(m, pvw, prev_h as nat, bw as nat, i) != slot_get(
                        m,
                        cvw,
                        curr_h as nat,
                        bw as nat,
                        i,
                    ) implies key_present(chs@, offset + i) by {
                    if i >= capc {
                        crate::amt::node::lemma_slot_get_out_of_range(
                            m,
                            cvw,
                            curr_h as nat,
                            bw as nat,
                            i,
                        );
                    }
                }
            }
            Ok(chs)
        },
        (Some(pcid), Some(ccid)) => {
            if prev_h == curr_h {
                if bytes_eq(pcid, ccid) {
                    // One store: equal identifiers resolve to the same
                    // subtree, so nothing differs below this point.
                    return Ok(Vec::new());
                }
                if prev_h == 0 {
                    proof {
                        assert(bw * (0 + 1) == bw) by (nonlinear_arith)
                            requires
                                true,
                        ;
                        assert(subtree_cap(bw as nat, 0) == pow2(bw as nat));
                    }
                    let pvals = match s.get(pcid) {
                        Some(StoredBlock::Node(PersistNode::Leaf(vs))) => vs,
                        _ => {
                            return Err(AmtError::CorruptStore);
                        },
                    };
                    let cvals = match s.get(ccid) {
                        Some(StoredBlock::Node(PersistNode::Leaf(vs))) => vs,
                        _ => {
                            return Err(AmtError::CorruptStore);
                        },
                    };
                    let chs = diff_leaves(&pvals, &cvals, offset);
                    proof {
                        let ppv = view_slots(pvals@);
                        let ccv = view_slots(cvals@);
                        assert forall|i: int|
                            0 <= i < ppv.len() implies slot_get(m, pvw, 0, bw as nat, i) == ppv[i]
                            && slot_get(m, cvw, 0, bw as nat, i) == ccv[i] by {}
                    }
                    Ok(chs)
                } else {
                    let plinks = match s.get(pcid) {
                        Some(StoredBlock::Node(PersistNode::Links(ls))) => ls,
                        _ => {
                            return Err(AmtError::CorruptStore);
                        },
                    };
                    let clinks = match s.get(ccid) {
                        Some(StoredBlock::Node(PersistNode::Links(ls))) => ls,
                        _ => {
                            return Err(AmtError::CorruptStore);
                        },
                    };
                    let ghost plv = view_slots(plinks@);
                    let ghost clv = view_slots(clinks@);
                    let h = prev_h;
                    proof {
                        assert(bw * h == (bw as nat) * (h as nat)) by (nonlinear_arith)
                            requires
                                true,
                        ;
                        assert(bw * h < 64) by (nonlinear_arith)
                            requires
                                bw >= 1,
                                bw * (h + 1) <= 64,
                        ;
                    }
                    let ctx = NodeContext { height: h, bit_width: bw };
                    let sp = ctx.nodes_at_height();
                    let ghost spi = span(bw as nat, h as nat) as int;
                    proof {
                        lemma_pow2_pos((bw as nat) * (h as nat));
                        assert(subtree_cap(bw as nat, h as nat) == pow2(bw as nat) * span(
                            bw as nat,
                            h as nat,
                        )) by {
                            lemma_pow2_adds(bw as nat, (bw as nat) * (h as nat));
                            assert((bw as nat) * ((h as nat) + 1) == (bw as nat) + (bw as nat) * (
                            h as nat)) by (nonlinear_arith)
                                requires
                                    true,
                            ;
                        }
                        assert(bw * ((h - 1) + 1) <= 64) by (nonlinear_arith)
                            requires
                                h >= 1,
                                bw >= 1,
                                bw * (h + 1) <= 64,
                        ;
                        assert((bw as nat) * (((h - 1) as nat) + 1) == (bw as nat) * (h as nat))
                            by (nonlinear_arith)
                                requires
                                    h >= 1,
                        ;
                        assert(subtree_cap(bw as nat, (h - 1) as nat) == span(bw as nat, h as nat));
                    }
                    let mut out: Vec<Change> = Vec::new();
                    let mut c: usize = 0;
                    while c < plinks.len()
                        invariant
                            c <= plinks@.len(),
                            1 <= bw <= 8,
                            h >= 1,
                            h == prev_h,
                            h == curr_h,
                            bw * (h + 1) <= 64,
                            bw * ((h - 1) + 1) <= 64,
                            plinks@.len() == pow2(bw as nat),
                            clinks@.len() == pow2(bw as nat),
                            plv == view_slots(plinks@),
                            clv == view_slots(clinks@),
                            m == s.view_map(),
                            spi == span(bw as nat, h as nat),
                            spi == sp,
                            sp > 0,
                            subtree_cap(bw as nat, (h - 1) as nat) == spi,
                            subtree_cap(bw as nat, h as nat) == plinks@.len() * spi,
                            offset + subtree_cap(bw as nat, h as nat)
                                <= 0x1_0000_0000_0000_0000,
                            pvw == opt_view(*prev),
                            cvw == opt_view(*curr),
                            slot_wf(m, pvw, h as nat, bw as nat),
                            slot_wf(m, cvw, h as nat, bw as nat),
                            m.contains_key(pcid@) && pvw == Some(pcid@),
                            m.contains_key(ccid@) && cvw == Some(ccid@),
                            m[pcid@] matches crate::amt::node::BlockView::Links { links: l } && l
                                == plv,
                            m[ccid@] matches crate::amt::node::BlockView::Links { links: l } && l
                                == clv,
                            forall|cc: int|
                                0 <= cc < plv.len() ==> slot_wf(
                                    m,
                                    #[trigger] plv[cc],
                                    (h - 1) as nat,
                                    bw as nat,
                                ),
                            forall|cc: int|
                                0 <= cc < clv.len() ==> slot_wf(
                                    m,
                                    #[trigger] clv[cc],
                                    (h - 1) as nat,
                                    bw as nat,
                                ),
                            changes_sorted(out@),
                            keys_in(out@, offset as int, offset + c * spi),
                            forall|k: int|
                                0 <= k < out@.len() ==> describes(
                                    slot_get(
                                        m,
                                        pvw,
                                        h as nat,
                                        bw as nat,
                                        (#[trigger] out@[k]).key - offset,
                                    ),
                                    slot_get(m, cvw, h as nat, bw as nat, out@[k].key - offset),
                                    out@[k],
                                ),
                            forall|i: int|
                                0 <= i < c * spi && slot_get(m, pvw, h as nat, bw as nat, i)
                                    != slot_get(m, cvw, h as nat, bw as nat, i) ==> key_present(
                                    out@,
                                    offset + i,
                                ),
                        decreases plinks@.len() - c,
                    {
                        proof {
                            assert(c * spi + spi == (c + 1) * spi) by (nonlinear_arith)
                                requires
                                    true,
                            ;
                            assert((c + 1) * spi <= plinks@.len() * spi) by (nonlinear_arith)
                                requires
                                    c + 1 <= plinks@.len(),
                                    spi > 0,
                            ;
                        }
                        let child_p = copy_opt_bytes(&plinks[c]);
                        let child_c = copy_opt_bytes(&clinks[c]);
                        let child_offset = offset + (c as u64) * sp;
                        let same = match (&child_p, &child_c) {
                            (Some(a), Some(b)) => bytes_eq(a, b),
                            (None, None) => true,
                            _ => false,
                        };
                        let ghost out_prev = out@;
                        if same {
                            proof {
                                assert(opt_view(child_p) == opt_view(child_c));
                                assert forall|i: int|
                                    c * spi <= i < (c + 1) * spi implies slot_get(
                                    m,
                                    pvw,
                                    h as nat,
                                    bw as nat,
                                    i,
                                ) == slot_get(m, cvw, h as nat, bw as nat, i) by {
                                    assert(i / spi == c && i % spi == i - c * spi)
                                        by (nonlinear_arith)
                                            requires
                                                spi > 0,
                                                c * spi <= i < (c + 1) * spi,
                                    ;
                                    assert(slot_get(m, pvw, h as nat, bw as nat, i) == slot_get(
                                        m,
                                        plv[c as int],
                                        (h - 1) as nat,
                                        bw as nat,
                                        i % spi,
                                    ));
                                    assert(slot_get(m, cvw, h as nat, bw as nat, i) == slot_get(
                                        m,
                                        clv[c as int],
                                        (h - 1) as nat,
                                        bw as nat,
                                        i % spi,
                                    ));
                                    assert(plv[c as int] == opt_view(child_p));
                                    assert(clv[c as int] == opt_view(child_c));
                                }
                                assert forall|i: int|
                                    0 <= i < (c + 1) * spi && slot_get(
                                        m,
                                        pvw,
                                        h as nat,
                                        bw as nat,
                                        i,
                                    ) != slot_get(m, cvw, h as nat, bw as nat, i) implies
                                    key_present(out@, offset + i) by {
                                    assert(i < c * spi);
                                }
                            }
                        } else {
                            let mut sub = match diff_slot(
                                s,
                                &child_p,
                                h - 1,
                                &child_c,
                                h - 1,
                                bw,
                                child_offset,
                            ) {
                                Ok(x) => x,
                                Err(e) => {
                                    return Err(e);
                                },
                            };
                            let ghost sub_v = sub@;
                            out.append(&mut sub);
                            proof {
                                lemma_sorted_concat(
                                    out_prev,
                                    sub_v,
                                    offset as int,
                                    child_offset as int,
                                    child_offset + spi,
                                );
                                assert(out@ == out_prev + sub_v);
                                assert forall|k: int|
                                    0 <= k < out@.len() implies describes(
                                    slot_get(
                                        m,
                                        pvw,
                                        h as nat,
                                        bw as nat,
                                        (#[trigger] out@[k]).key - offset,
                                    ),
                                    slot_get(m, cvw, h as nat, bw as nat, out@[k].key - offset),
                                    out@[k],
                                ) by {
                                    if k < out_prev.len() {
                                        assert(out@[k] == out_prev[k]);
                                    } else {
                                        assert(out@[k] == sub_v[k - out_prev.len()]);
                                        let key = out@[k].key as int;
                                        let i = key - offset;
                                        let si = key - child_offset;
                                        assert(c * spi <= i < (c + 1) * spi);
                                        assert(i / spi == c && i % spi == si) by (nonlinear_arith)
                                            requires
                                                spi > 0,
                                                c * spi <= i < (c + 1) * spi,
                                                si == i - c * spi,
                                        ;
                                        assert(slot_get(m, pvw, h as nat, bw as nat, i)
                                            == slot_get(
                                            m,
                                            plv[c as int],
                                            (h - 1) as nat,
                                            bw as nat,
                                            si,
                                        ));
                                        assert(slot_get(m, cvw, h as nat, bw as nat, i)
                                            == slot_get(
                                            m,
                                            clv[c as int],
                                            (h - 1) as nat,
                                            bw as nat,
                                            si,
                                        ));
                                        assert(plv[c as int] == opt_view(child_p));
                                        assert(clv[c as int] == opt_view(child_c));
                                    }
                                }
                                assert forall|i: int|
                                    0 <= i < (c + 1) * spi && slot_get(
                                        m,
                                        pvw,
                                        h as nat,
                                        bw as nat,
                                        i,
                                    ) != slot_get(m, cvw, h as nat, bw as nat, i) implies
                                    key_present(out@, offset + i) by {
                                    if i < c * spi {
                                        assert(key_present(out_prev, offset + i));
                                        let k = choose|k: int|
                                            0 <= k < out_prev.len() && out_prev[k].key == offset
                                                + i;
                                        assert(out@[k] == out_prev[k]);
                                    } else {
                                        let si = i - c * spi;
                                        assert(i / spi == c && i % spi == si) by (nonlinear_arith)
                                            requires
                                                spi > 0,
                                                c * spi <= i < (c + 1) * spi,
                                                si == i - c * spi,
                                        ;
                                        assert(slot_get(m, pvw, h as nat, bw as nat, i)
                                            == slot_get(
                                            m,
                                            plv[c as int],
                                            (h - 1) as nat,
                                            bw as nat,
                                            si,
                                        ));
                                        assert(slot_get(m, cvw, h as nat, bw as nat, i)
                                            == slot_get(
                                            m,
                                            clv[c as int],
                                            (h - 1) as nat,
                                            bw as nat,
                                            si,
                                        ));
                                        assert(plv[c as int] == opt_view(child_p));
                                        assert(clv[c as int] == opt_view(child_c));
                                        assert(key_present(sub_v, child_offset + si));
                                        let k = choose|k: int|
                                            0 <= k < sub_v.len() && sub_v[k].key == child_offset
                                                + si;
                                        assert(out@[k + out_prev.len()] == sub_v[k]);
                                    }
                                }
                            }
                        }
                        c = c + 1;
                    }
                    proof {
                        assert(plinks@.len() * spi == subtree_cap(bw as nat, h as nat));
                    }
                    Ok(out)
                }
            } else if prev_h < curr_h {
                diff_across(s, prev, prev_h, curr, curr_h, bw, offset, false)
            } else {
                diff_across(s, curr, curr_h, prev, prev_h, bw, offset, true)
            }
        },
    }
}

/// The diff of a shorter subtree against a taller one: the taller tree's
/// links are walked, the shorter tree standing in slot zero. With
/// `removing` false the shorter side is the earlier state (extra subtrees
/// are additions); with it true the shorter side is the later state (extra
/// subtrees are removals).
#[verifier::rlimit(30)]
fn diff_across(
    s: &BlockStore,
    short: &Option<Vec<u8>>,
    sh: u32,
    tall: &Option<Vec<u8>>,
    th: u32,
    bw: u32,
    offset: u64,
    removing: bool,
) -> (r: Result<Vec<Change>, AmtError>)
    requires
        1 <= bw <= 8,
        sh < th,
        bw * (th + 1) <= 64,
        bw * (sh + 1) <= 64,
        slot_wf(s.view_map(), opt_view(*short), sh as nat, bw as nat),
        slot_wf(s.view_map(), opt_view(*tall), th as nat, bw as nat),
        opt_view(*tall) is Some,
        offset + subtree_cap(bw as nat, th as nat) <= 0x1_0000_0000_0000_0000,
    ensures
        r is Ok,
        r matches Ok(chs) ==> ({
            let m = s.view_map();
            let window = subtree_cap(bw as nat, th as nat) as int;
            &&& changes_sorted(chs@)
            &&& keys_in(chs@, offset as int, offset + window)
            &&& forall|k: int|
                0 <= k < chs@.len() ==> {
                    let i = (#[trigger] chs@[k]).key - offset;
                    if removing {
                        describes(
                            slot_get(m, opt_view(*tall), th as nat, bw as nat, i),
                            slot_get(m, opt_view(*short), sh as nat, bw as nat, i),
                            chs@[k],
                        )
                    } else {
                        describes(
                            slot_get(m, opt_view(*short), sh as nat, bw as nat, i),
                            slot_get(m, opt_view(*tall), th as nat, bw as nat, i),
                            chs@[k],
                        )
                    }
                }
            &&& forall|i: int|
                0 <= i < window && slot_get(m, opt_view(*short), sh as nat, bw as nat, i)
                    != slot_get(m, opt_view(*tall), th as nat, bw as nat, i) ==> key_present(
                    chs@,
                    offset + i,
                )
        }),
    decreases sh + th, 0int,
{
    let ghost m = s.view_map();
    let ghost sv = opt_view(*short);
    let ghost tv = opt_view(*tall);
    let tcid = match tall {
        Some(c) => c,
        None => {
            return Err(AmtError::CorruptStore);
        },
    };
    let tlinks = match s.get(tcid) {
        Some(StoredBlock::Node(PersistNode::Links(ls))) => ls,
        _ => {
            return Err(AmtError::CorruptStore);
        },
    };
    let ghost tlv = view_slots(tlinks@);
    let h = th;
    proof {
        assert(bw * h == (bw as nat) * (h as nat)) by (nonlinear_arith)
            requires
                true,
        ;
        assert(bw * h < 64) by (nonlinear_arith)
            requires
                bw >= 1,
                bw * (h + 1) <= 64,
        ;
    }
    let ctx = NodeContext { height: h, bit_width: bw };
    let sp = ctx.nodes_at_height();
    let ghost spi = span(bw as nat, h as nat) as int;
    proof {
        lemma_pow2_pos((bw as nat) * (h as nat));
        assert(subtree_cap(bw as nat, h as nat) == pow2(bw as nat) * span(bw as nat, h as nat))
            by {
            lemma_pow2_adds(bw as nat, (bw as nat) * (h as nat));
            assert((bw as nat) * ((h as nat) + 1) == (bw as nat) + (bw as nat) * (h as nat))
                by (nonlinear_arith)
                    requires
                        true,
            ;
        }
        assert(bw * ((h - 1) + 1) <= 64) by (nonlinear_arith)
            requires
                h >= 1,
                bw >= 1,
                bw * (h + 1) <= 64,
        ;
        assert((bw as nat) * (((h - 1) as nat) + 1) == (bw as nat) * (h as nat))
            by (nonlinear_arith)
                requires
                    h >= 1,
        ;
        assert(subtree_cap(bw as nat, (h - 1) as nat) == span(bw as nat, h as nat));
        // The shorter subtree fits inside the taller tree's slot zero.
        if sh < h - 1 {
            assert((bw as nat) * ((sh as nat) + 1) < (bw as nat) * (((h - 1) as nat) + 1))
                by (nonlinear_arith)
                    requires
                        bw >= 1,
                        sh < h - 1,
            ;
            vstd::arithmetic::power2::lemma_pow2_strictly_increases(
                (bw as nat) * ((sh as nat) + 1),
                (bw as nat) * (((h - 1) as nat) + 1),
            );
        }
        assert(subtree_cap(bw as nat, sh as nat) <= spi);
    }
    let mut out: Vec<Change> = Vec::new();
    let mut c: usize = 0;
    while c < tlinks.len()
        invariant
            c <= tlinks@.len(),
            1 <= bw <= 8,
            h >= 1,
            h == th,
            sh < th,
            bw * (h + 1) <= 64,
            bw * ((h - 1) + 1) <= 64,
            bw * (sh + 1) <= 64,
            tlinks@.len() == pow2(bw as nat),
            tlv == view_slots(tlinks@),
            m == s.view_map(),
            spi == span(bw as nat, h as nat),
            spi == sp,
            sp > 0,
            subtree_cap(bw as nat, (h - 1) as nat) == spi,
            subtree_cap(bw as nat, sh as nat) <= spi,
            subtree_cap(bw as nat, h as nat) == tlinks@.len() * spi,
            offset + subtree_cap(bw as nat, h as nat) <= 0x1_0000_0000_0000_0000,
            sv == opt_view(*short),
            tv == opt_view(*tall),
            slot_wf(m, sv, sh as nat, bw as nat),
            slot_wf(m, tv, h as nat, bw as nat),
            m.contains_key(tcid@) && tv == Some(tcid@),
            m[tcid@] matches crate::amt::node::BlockView::Links { links: l } && l == tlv,
            forall|cc: int|
                0 <= cc < tlv.len() ==> slot_wf(m, #[trigger] tlv[cc], (h - 1) as nat, bw as nat),
            changes_sorted(out@),
            keys_in(out@, offset as int, offset + c * spi),
            forall|k: int|
                0 <= k < out@.len() ==> {
                    let i = (#[trigger] out@[k]).key - offset;
                    if removing {
                        describes(
                            slot_get(m, tv, h as nat, bw as nat, i),
                            slot_get(m, sv, sh as nat, bw as nat, i),
                            out@[k],
                        )
                    } else {
                        describes(
                            slot_get(m, sv, sh as nat, bw as nat, i),
                            slot_get(m, tv, h as nat, bw as nat, i),
                            out@[k],
                        )
                    }
                },
            forall|i: int|
                0 <= i < c * spi && slot_get(m, sv, sh as nat, bw as nat, i) != slot_get(
                    m,
                    tv,
                    h as nat,
                    bw as nat,
                    i,
                ) ==> key_present(out@, offset + i),
        decreases tlinks@.len() - c,
    {
        proof {
            assert(c * spi + spi == (c + 1) * spi) by (nonlinear_arith)
                requires
                    true,
            ;
            assert((c + 1) * spi <= tlinks@.len() * spi) by (nonlinear_arith)
                requires
                    c + 1 <= tlinks@.len(),
                    spi > 0,
            ;
        }
        let child = copy_opt_bytes(&tlinks[c]);
        let child_offset = offset + (c as u64) * sp;
        let ghost out_prev = out@;
        let mut sub = if c == 0 {
            let res = if removing {
                diff_slot(s, &child, h - 1, short, sh, bw, child_offset)
            } else {
                diff_slot(s, short, sh, &child, h - 1, bw, child_offset)
            };
            match res {
                Ok(x) => x,
                Err(e) => {
                    return Err(e);
                },
            }
        } else {
            match collect_changes(s, &child, h - 1, bw, child_offset, removing) {
                Ok(x) => x,
                Err(e) => {
                    return Err(e);
                },
            }
        };
        let ghost sub_v = sub@;
        out.append(&mut sub);
        proof {
            lemma_sorted_concat(
                out_prev,
                sub_v,
                offset as int,
                child_offset as int,
                child_offset + spi,
            );
            assert(out@ == out_prev + sub_v);
            // Lift descriptions from the child level to the taller node,
            // and note that the shorter tree reads empty outside slot zero.
            assert forall|k: int|
                0 <= k < out@.len() implies {
                let i = (#[trigger] out@[k]).key - offset;
                if removing {
                    describes(
                        slot_get(m, tv, h as nat, bw as nat, i),
                        slot_get(m, sv, sh as nat, bw as nat, i),
                        out@[k],
                    )
                } else {
                    describes(
                        slot_get(m, sv, sh as nat, bw as nat, i),
                        slot_get(m, tv, h as nat, bw as nat, i),
                        out@[k],
                    )
                }
            } by {
                if k < out_prev.len() {
                    assert(out@[k] == out_prev[k]);
                } else {
                    assert(out@[k] == sub_v[k - out_prev.len()]);
                    let key = out@[k].key as int;
                    let i = key - offset;
                    let si = key - child_offset;
                    assert(c * spi <= i < (c + 1) * spi);
                    assert(i / spi == c && i % spi == si) by (nonlinear_arith)
                        requires
                            spi > 0,
                            c * spi <= i < (c + 1) * spi,
                            si == i - c * spi,
                    ;
                    assert(slot_get(m, tv, h as nat, bw as nat, i) == slot_get(
                        m,
                        tlv[c as int],
                        (h - 1) as nat,
                        bw as nat,
                        si,
                    ));
                    assert(tlv[c as int] == opt_view(child));
                    if c == 0 {
                        assert(c * spi == 0) by (nonlinear_arith)
                            requires
                                c == 0,
                        ;
                        assert(si == i);
                    } else {
                        assert(i >= spi) by (nonlinear_arith)
                            requires
                                c >= 1,
                                spi > 0,
                                i >= c * spi,
                        ;
                        crate::amt::node::lemma_slot_get_out_of_range(
                            m,
                            sv,
                            sh as nat,
                            bw as nat,
                            i,
                        );
                        assert(slot_get(m, sv, sh as nat, bw as nat, i) is None);
                    }
                }
            }
            assert forall|i: int|
                0 <= i < (c + 1) * spi && slot_get(m, sv, sh as nat, bw as nat, i) != slot_get(
                    m,
                    tv,
                    h as nat,
                    bw as nat,
                    i,
                ) implies key_present(out@, offset + i) by {
                if i < c * spi {
                    assert(key_present(out_prev, offset + i));
                    let k = choose|k: int| 0 <= k < out_prev.len() && out_prev[k].key == offset + i;
                    assert(out@[k] == out_prev[k]);
                } else {
                    let si = i - c * spi;
                    assert(i / spi == c && i % spi == si) by (nonlinear_arith)
                        requires
                            spi > 0,
                            c * spi <= i < (c + 1) * spi,
                            si == i - c * spi,
                    ;
                    assert(slot_get(m, tv, h as nat, bw as nat, i) == slot_get(
                        m,
                        tlv[c as int],
                        (h - 1) as nat,
                        bw as nat,
                        si,
                    ));
                    assert(tlv[c as int] == opt_view(child));
                    if c == 0 {
                        assert(c * spi == 0) by (nonlinear_arith)
                            requires
                                c == 0,
                        ;
                        assert(si == i);
                        assert(key_present(sub_v, child_offset + si));
                    } else {
                        assert(i >= spi) by (nonlinear_arith)
                            requires
                                c >= 1,
                                spi > 0,
                                i >= c * spi,
                        ;
                        crate::amt::node::lemma_slot_get_out_of_range(
                            m,
                            sv,
                            sh as nat,
                            bw as nat,
                            i,
                        );
                        assert(slot_get(m, sv, sh as nat, bw as nat, i) is None);
                        assert(slot_get(m, tlv[c as int], (h - 1) as nat, bw as nat, si) is Some);
                        assert(key_present(sub_v, child_offset + si));
                    }
                    let k = choose|k: int|
                        0 <= k < sub_v.len() && sub_v[k].key == child_offset + si;
                    assert(out@[k + out_prev.len()] == sub_v[k]);
                }
            }
        }
        c = c + 1;
    }
    proof {
        assert(tlinks@.len() * spi == subtree_cap(bw as nat, h as nat));
    }
    Ok(out)
}

/// The ordered list of changes that carries `prev_amt`'s contents to
/// `curr_amt`'s, over one block store. The two tries must use the same bit
/// width; the walk skips subtrees that share a content identifier, so its
/// cost is linear in the change set. Every index that differs appears
/// exactly once, with its kind and both values.
pub fn diff(s: &BlockStore, prev_amt: &Amt, curr_amt: &Amt) -> (r: Result<Vec<Change>, AmtError>)
    requires
        prev_amt.wf(s.view_map()),
        curr_amt.wf(s.view_map()),
    ensures
        r is Ok <==> prev_amt.bit_width == curr_amt.bit_width,
        r matches Err(e) ==> e == AmtError::BitWidthMismatch,
        r matches Ok(chs) ==> ({
            let m = s.view_map();
            &&& changes_sorted(chs@)
            &&& forall|k: int|
                0 <= k < chs@.len() ==> describes(
                    prev_amt.sem(m, (#[trigger] chs@[k]).key as int),
                    curr_amt.sem(m, chs@[k].key as int),
                    chs@[k],
                )
            &&& forall|k: int|
                0 <= k < chs@.len() ==> prev_amt.sem(m, (#[trigger] chs@[k]).key as int)
                    != curr_amt.sem(m, chs@[k].key as int)
            &&& forall|i: int|
                prev_amt.sem(m, i) != curr_amt.sem(m, i) ==> key_present(chs@, i)
            &&& (chs@.len() == 0 <==> forall|i: int|
                prev_amt.sem(m, i) == curr_amt.sem(m, i))
        }),
{
    let ghost m = s.view_map();
    if prev_amt.bit_width != curr_amt.bit_width {
        return Err(AmtError::BitWidthMismatch);
    }
    let bw = prev_amt.bit_width;
    proof {
        let maxh = if prev_amt.height >= curr_amt.height {
            prev_amt.height
        } else {
            curr_amt.height
        };
        let bits = (bw as nat) * ((maxh as nat) + 1);
        vstd::arithmetic::power2::lemma2_to64_rest();
        if bits < 64 {
            vstd::arithmetic::power2::lemma_pow2_strictly_increases(bits, 64);
        }
        assert(subtree_cap(bw as nat, maxh as nat) <= pow2(64));
    }
    let chs = match diff_slot(
        s,
        &prev_amt.root,
        prev_amt.height,
        &curr_amt.root,
        curr_amt.height,
        bw,
        0,
    ) {
        Ok(x) => x,
        Err(_) => {
            // With both tries well-formed the walk cannot fail: every
            // reachable block is present and has the right shape, and no
            // store write happens during a diff.
            proof {
                assert(false);
            }
            return Err(AmtError::BitWidthMismatch);
        },
    };
    proof {
        let window = subtree_cap(
            bw as nat,
            (if prev_amt.height >= curr_amt.height {
                prev_amt.height
            } else {
                curr_amt.height
            }) as nat,
        ) as int;
        assert forall|i: int|
            prev_amt.sem(m, i) != curr_amt.sem(m, i) implies key_present(chs@, i) by {
            if !(0 <= i < window) {
                if prev_amt.height > curr_amt.height {
                    assert((bw as nat) * ((curr_amt.height as nat) + 1) < (bw as nat) * ((
                    prev_amt.height as nat) + 1)) by (nonlinear_arith)
                        requires
                            bw >= 1,
                            curr_amt.height < prev_amt.height,
                    ;
                    vstd::arithmetic::power2::lemma_pow2_strictly_increases(
                        (bw as nat) * ((curr_amt.height as nat) + 1),
                        (bw as nat) * ((prev_amt.height as nat) + 1),
                    );
                } else if prev_amt.height < curr_amt.height {
                    assert((bw as nat) * ((prev_amt.height as nat) + 1) < (bw as nat) * ((
                    curr_amt.height as nat) + 1)) by (nonlinear_arith)
                        requires
                            bw >= 1,
                            prev_amt.height < curr_amt.height,
                    ;
                    vstd::arithmetic::power2::lemma_pow2_strictly_increases(
                        (bw as nat) * ((prev_amt.height as nat) + 1),
                        (bw as nat) * ((curr_amt.height as nat) + 1),
                    );
                }
                crate::amt::node::lemma_slot_get_out_of_range(
                    m,
                    prev_amt.root_view(),
                    prev_amt.height as nat,
                    bw as nat,
                    i,
                );
                crate::amt::node::lemma_slot_get_out_of_range(
                    m,
                    curr_amt.root_view(),
                    curr_amt.height as nat,
                    bw as nat,
                    i,
                );
            }
        }
        // Each change describes the two tries' values at its key, and a
        // description in any arm has differing sides; an empty list
        // therefore means no index differs, and a non-empty one exhibits
        // a differing index.
        assert forall|k: int|
            0 <= k < chs@.len() implies prev_amt.sem(m, (#[trigger] chs@[k]).key as int)
            != curr_amt.sem(m, chs@[k].key as int) by {
            assert(describes(
                prev_amt.sem(m, chs@[k].key as int),
                curr_amt.sem(m, chs@[k].key as int),
                chs@[k],
            ));
        }
        if chs@.len() > 0 {
            assert(prev_amt.sem(m, chs@[0].key as int) != curr_amt.sem(m, chs@[0].key as int));
        }
    }
    Ok(chs)
}

/// What a change list makes of index `i`, starting from `prev`: the
/// outcome of the change at that key when there is one, the previous value
/// otherwise.
pub open spec fn apply_changes_at(prev: Option<Seq<u8>>, chs: Seq<Change>, i: int) -> Option<
    Seq<u8>,
> {
    if key_present(chs, i) {
        let k = choose|k: int| 0 <= k < chs.len() && (#[trigger] chs[k]).key == i;
        match chs[k].change_type {
            ChangeType::Remove => None,
            _ => opt_view(chs[k].after),
        }
    } else {
        prev
    }
}

/// Diff soundness: applying the changes `diff` returned for `(prev, curr)`
/// to `prev` yields `curr` at every index, and an empty diff means the two
/// tries hold the same value everywhere.
pub proof fn lemma_diff_apply(
    m: crate::amt::node::StoreMap,
    prev_amt: Amt,
    curr_amt: Amt,
    chs: Seq<Change>,
)
    requires
        forall|k: int|
            0 <= k < chs.len() ==> describes(
                prev_amt.sem(m, (#[trigger] chs[k]).key as int),
                curr_amt.sem(m, chs[k].key as int),
                chs[k],
            ),
        forall|i: int| prev_amt.sem(m, i) != curr_amt.sem(m, i) ==> key_present(chs, i),
    ensures
        forall|i: int|
            apply_changes_at(prev_amt.sem(m, i), chs, i) == curr_amt.sem(m, i),
        chs.len() == 0 ==> forall|i: int| prev_amt.sem(m, i) == curr_amt.sem(m, i),
{
    assert forall|i: int|
        apply_changes_at(prev_amt.sem(m, i), chs, i) == curr_amt.sem(m, i) by {
        if key_present(chs, i) {
            let k = choose|k: int| 0 <= k < chs.len() && (#[trigger] chs[k]).key == i;
            assert(describes(prev_amt.sem(m, i), curr_amt.sem(m, i), chs[k]));
        }
    }
}

/// The two halves of "empty diff exactly when the roots coincide", for
/// tries `diff` accepts. One direction is structural: equal root
/// identifiers read equally everywhere, so the diff is empty. The other
/// is canonicity: over a content-addressed store, two pruned tries of the
/// same configuration, height and count that read equally everywhere are
/// rooted at the same identifier and flush to the same root-descriptor
/// identifier.
pub proof fn lemma_empty_diff_same_root(
    m: crate::amt::node::StoreMap,
    prev_amt: Amt,
    curr_amt: Amt,
    chs: Seq<Change>,
)
    requires
        crate::amt::store::content_addressed(m),
        prev_amt.wf(m),
        curr_amt.wf(m),
        prev_amt.pruned(m),
        curr_amt.pruned(m),
        prev_amt.bit_width == curr_amt.bit_width,
        prev_amt.height == curr_amt.height,
        prev_amt.count == curr_amt.count,
        chs.len() == 0 <==> forall|i: int| prev_amt.sem(m, i) == curr_amt.sem(m, i),
    ensures
        chs.len() == 0 ==> prev_amt.root_view() == curr_amt.root_view()
            && prev_amt.root_block_cid() == curr_amt.root_block_cid(),
        prev_amt.root_view() == curr_amt.root_view() ==> chs.len() == 0,
{
    if chs.len() == 0 {
        crate::amt::lemma_canonical_root_cid(m, prev_amt, curr_amt);
    }
    if prev_amt.root_view() == curr_amt.root_view() {
        assert forall|i: int| prev_amt.sem(m, i) == curr_amt.sem(m, i) by {}
    }
}

} // verus!
