//! The persisted node model of the array-mapped trie and its logical
//! semantics relative to a block store.
//!
//! A node at height zero is a leaf holding a fixed-width row of optional
//! values; a node at a positive height holds a fixed-width row of optional
//! links, each the content identifier of a child one level down. A node at
//! height `h` with bit width `bw` covers `2^(bw*(h+1))` consecutive
//! indices.

use vstd::arithmetic::power2::{lemma_pow2_adds, lemma_pow2_pos, pow2};
use vstd::prelude::*;

verus! {

/// A fixed-width row of optional byte strings: values in a leaf, child
/// content identifiers in an interior node.
pub type Slots = Vec<Option<Vec<u8>>>;

/// A node as persisted in the block store.
#[derive(Debug)]
pub enum PersistNode {
    /// A height-zero node: one optional value per slot.
    Leaf(Slots),
    /// A positive-height node: one optional child identifier per slot.
    Links(Slots),
}

/// A block in the store: a trie node, or the root descriptor recording the
/// configuration, height, count and root node of a whole trie.
#[derive(Debug)]
pub enum StoredBlock {
    Node(PersistNode),
    Root { bit_width: u32, height: u32, count: u64, root: Option<Vec<u8>> },
}

/// The mathematical image of a row of slots.
pub open spec fn view_slots(s: Seq<Option<Vec<u8>>>) -> Seq<Option<Seq<u8>>> {
    Seq::new(
        s.len(),
        |i: int|
            match s[i] {
                Some(v) => Some(v@),
                None => None,
            },
    )
}

/// The mathematical image of a stored block.
#[verifier::ext_equal]
pub enum BlockView {
    Leaf { vals: Seq<Option<Seq<u8>>> },
    Links { links: Seq<Option<Seq<u8>>> },
    Root { bit_width: u32, height: u32, count: u64, root: Option<Seq<u8>> },
}

/// The image of a block in the store.
pub open spec fn view_block(b: StoredBlock) -> BlockView {
    match b {
        StoredBlock::Node(PersistNode::Leaf(vals)) => BlockView::Leaf { vals: view_slots(vals@) },
        StoredBlock::Node(PersistNode::Links(links)) => BlockView::Links {
            links: view_slots(links@),
        },
        StoredBlock::Root { bit_width, height, count, root } => BlockView::Root {
            bit_width,
            height,
            count,
            root: match root {
                Some(c) => Some(c@),
                None => None,
            },
        },
    }
}

/// A block store as a mathematical map from content identifier bytes to
/// block images.
pub type StoreMap = Map<Seq<u8>, BlockView>;

/// The number of indices one child of a node at height `h` covers.
pub open spec fn span(bw: nat, h: nat) -> nat {
    pow2(bw * h)
}

/// The number of indices a whole subtree at height `h` covers.
pub open spec fn subtree_cap(bw: nat, h: nat) -> nat {
    pow2(bw * (h + 1))
}

/// The value at local index `i` of the subtree rooted at `slot` (a child
/// identifier, or nothing for an absent subtree) at height `h`, read
/// through the store.
pub open spec fn slot_get(store: StoreMap, slot: Option<Seq<u8>>, h: nat, bw: nat, i: int) -> Option<
    Seq<u8>,
>
    decreases h,
{
    match slot {
        None => None,
        Some(cid) => {
            if !store.contains_key(cid) {
                None
            } else {
                match store[cid] {
                    BlockView::Leaf { vals } => {
                        if h == 0 && 0 <= i < vals.len() {
                            vals[i]
                        } else {
                            None
                        }
                    },
                    BlockView::Links { links } => {
                        if h > 0 && 0 <= i && i / (span(bw, h) as int) < links.len() {
                            slot_get(
                                store,
                                links[i / (span(bw, h) as int)],
                                (h - 1) as nat,
                                bw,
                                i % (span(bw, h) as int),
                            )
                        } else {
                            None
                        }
                    },
                    BlockView::Root { .. } => None,
                }
            }
        },
    }
}

/// Shape well-formedness of the subtree rooted at `slot` at height `h`:
/// every reachable identifier is present in the store, leaves sit exactly
/// at height zero, and every row has width `2^bw`.
pub open spec fn slot_wf(store: StoreMap, slot: Option<Seq<u8>>, h: nat, bw: nat) -> bool
    decreases h,
{
    match slot {
        None => true,
        Some(cid) => store.contains_key(cid) && match store[cid] {
            BlockView::Leaf { vals } => h == 0 && vals.len() == pow2(bw),
            BlockView::Links { links } => h > 0 && links.len() == pow2(bw) && forall|c: int|
                0 <= c < links.len() ==> slot_wf(store, #[trigger] links[c], (h - 1) as nat, bw),
            BlockView::Root { .. } => false,
        },
    }
}

/// `s2` keeps every entry of `s1` unchanged (and may add more).
pub open spec fn store_extends(s1: StoreMap, s2: StoreMap) -> bool {
    forall|k: Seq<u8>|
        #[trigger] s1.contains_key(k) ==> s2.contains_key(k) && s2[k] == s1[k]
}

/// Extending the store changes nothing about a well-formed subtree: its
/// shape stays well-formed and every index reads the same value.
pub proof fn lemma_slot_get_extends(
    s1: StoreMap,
    s2: StoreMap,
    slot: Option<Seq<u8>>,
    h: nat,
    bw: nat,
)
    requires
        slot_wf(s1, slot, h, bw),
        store_extends(s1, s2),
    ensures
        slot_wf(s2, slot, h, bw),
        forall|i: int| slot_get(s2, slot, h, bw, i) == slot_get(s1, slot, h, bw, i),
    decreases h,
{
    match slot {
        None => {},
        Some(cid) => {
            assert(s2.contains_key(cid) && s2[cid] == s1[cid]);
            match s1[cid] {
                BlockView::Leaf { vals } => {},
                BlockView::Links { links } => {
                    assert forall|c: int| 0 <= c < links.len() implies slot_wf(
                        s2,
                        #[trigger] links[c],
                        (h - 1) as nat,
                        bw,
                    ) by {
                        lemma_slot_get_extends(s1, s2, links[c], (h - 1) as nat, bw);
                    }
                    assert forall|i: int|
                        slot_get(s2, slot, h, bw, i) == slot_get(s1, slot, h, bw, i) by {
                        let sp = span(bw, h) as int;
                        lemma_pow2_pos(bw * h);
                        if 0 <= i && i / sp < links.len() {
                            assert(0 <= i / sp) by (nonlinear_arith)
                                requires
                                    i >= 0,
                                    sp > 0,
                            ;
                            lemma_slot_get_extends(s1, s2, links[i / sp], (h - 1) as nat, bw);
                            assert(slot_get(s1, slot, h, bw, i) == slot_get(
                                s1,
                                links[i / sp],
                                (h - 1) as nat,
                                bw,
                                i % sp,
                            ));
                            assert(slot_get(s2, slot, h, bw, i) == slot_get(
                                s2,
                                links[i / sp],
                                (h - 1) as nat,
                                bw,
                                i % sp,
                            ));
                        } else {
                            assert(slot_get(s1, slot, h, bw, i) is None);
                            assert(slot_get(s2, slot, h, bw, i) is None);
                        }
                    }
                },
                BlockView::Root { .. } => {},
            }
        },
    }
}

/// A subtree at height `h` holds nothing at or beyond its capacity
/// (nor at negative indices).
pub proof fn lemma_slot_get_out_of_range(
    store: StoreMap,
    slot: Option<Seq<u8>>,
    h: nat,
    bw: nat,
    i: int,
)
    requires
        slot_wf(store, slot, h, bw),
        i < 0 || i >= subtree_cap(bw, h),
    ensures
        slot_get(store, slot, h, bw, i) is None,
    decreases h,
{
    lemma_pow2_pos(bw);
    lemma_pow2_pos(bw * h);
    match slot {
        None => {},
        Some(cid) => {
            match store[cid] {
                BlockView::Leaf { vals } => {
                    assert(h == 0);
                    assert(bw * (h + 1) == bw) by (nonlinear_arith)
                        requires
                            h == 0,
                    ;
                    assert(subtree_cap(bw, h) == pow2(bw));
                },
                BlockView::Links { links } => {
                    if h > 0 && 0 <= i && i / (span(bw, h) as int) < links.len() {
                        let sp = span(bw, h) as int;
                        let c = i / sp;
                        assert(subtree_cap(bw, h) == pow2(bw) * span(bw, h)) by {
                            lemma_pow2_adds(bw, bw * h);
                            assert(bw * (h + 1) == bw + bw * h) by (nonlinear_arith);
                        }
                        assert(i >= links.len() * sp) by (nonlinear_arith)
                            requires
                                i >= pow2(bw) * sp,
                                links.len() == pow2(bw),
                                sp > 0,
                        ;
                        assert(c >= links.len()) by (nonlinear_arith)
                            requires
                                i >= links.len() * sp,
                                sp > 0,
                                c == i / sp,
                        ;
                    }
                },
                BlockView::Root { .. } => {},
            }
        },
    }
}

/// A pruned subtree: a present root holds at least one value, and so does
/// every present child below it. Insertion never creates an empty node, so
/// the trees this library builds are pruned by construction.
pub open spec fn slot_pruned(store: StoreMap, slot: Option<Seq<u8>>, h: nat, bw: nat) -> bool
    decreases h,
{
    match slot {
        None => true,
        Some(cid) => {
            &&& exists|i: int| slot_get(store, slot, h, bw, i) is Some
            &&& (store.contains_key(cid) ==> match store[cid] {
                BlockView::Links { links } => forall|c: int|
                    0 <= c < links.len() ==> slot_pruned(
                        store,
                        #[trigger] links[c],
                        (h - 1) as nat,
                        bw,
                    ),
                _ => true,
            })
        },
    }
}

/// Extending the store keeps a well-formed subtree pruned.
pub proof fn lemma_slot_pruned_extends(
    s1: StoreMap,
    s2: StoreMap,
    slot: Option<Seq<u8>>,
    h: nat,
    bw: nat,
)
    requires
        slot_wf(s1, slot, h, bw),
        slot_pruned(s1, slot, h, bw),
        store_extends(s1, s2),
    ensures
        slot_pruned(s2, slot, h, bw),
    decreases h,
{
    match slot {
        None => {},
        Some(cid) => {
            lemma_slot_get_extends(s1, s2, slot, h, bw);
            let w = choose|i: int| slot_get(s1, slot, h, bw, i) is Some;
            assert(slot_get(s2, slot, h, bw, w) is Some);
            assert(s2.contains_key(cid) && s2[cid] == s1[cid]);
            match s1[cid] {
                BlockView::Links { links } => {
                    assert forall|c: int| 0 <= c < links.len() implies slot_pruned(
                        s2,
                        #[trigger] links[c],
                        (h - 1) as nat,
                        bw,
                    ) by {
                        lemma_slot_pruned_extends(s1, s2, links[c], (h - 1) as nat, bw);
                    }
                },
                _ => {},
            }
        },
    }
}

/// Structural canonicity: in one content-addressed store, two well-formed,
/// pruned subtrees of the same height and bit width that hold the same
/// value at every index are referenced by the same identifier (or are both
/// absent). The serialized form of a trie is therefore a function of its
/// logical contents alone.
pub proof fn lemma_canonical_slot(
    store: StoreMap,
    a: Option<Seq<u8>>,
    b: Option<Seq<u8>>,
    h: nat,
    bw: nat,
)
    requires
        crate::amt::store::content_addressed(store),
        slot_wf(store, a, h, bw),
        slot_wf(store, b, h, bw),
        slot_pruned(store, a, h, bw),
        slot_pruned(store, b, h, bw),
        forall|i: int| slot_get(store, a, h, bw, i) == slot_get(store, b, h, bw, i),
    ensures
        a == b,
    decreases h,
{
    lemma_pow2_pos(bw);
    lemma_pow2_pos(bw * h);
    match (a, b) {
        (Option::None, Option::None) => {},
        (Option::Some(ca), Option::None) => {
            let w = choose|i: int| slot_get(store, a, h, bw, i) is Some;
            assert(slot_get(store, b, h, bw, w) is None);
        },
        (Option::None, Option::Some(cb)) => {
            let w = choose|i: int| slot_get(store, b, h, bw, i) is Some;
            assert(slot_get(store, a, h, bw, w) is None);
        },
        (Option::Some(ca), Option::Some(cb)) => {
            match (store[ca], store[cb]) {
                (BlockView::Leaf { vals: va }, BlockView::Leaf { vals: vb }) => {
                    assert forall|i: int| 0 <= i < va.len() implies va[i] == vb[i] by {
                        assert(slot_get(store, a, h, bw, i) == va[i]);
                        assert(slot_get(store, b, h, bw, i) == vb[i]);
                    }
                    assert(va =~= vb);
                    assert(store[ca] =~~= store[cb]);
                    assert(ca == crate::amt::store::cid_of_block(store[ca]));
                    assert(cb == crate::amt::store::cid_of_block(store[cb]));
                },
                (BlockView::Links { links: la }, BlockView::Links { links: lb }) => {
                    let spi = span(bw, h) as int;
                    assert forall|c: int| 0 <= c < la.len() implies la[c] == lb[c] by {
                        assert(slot_wf(store, la[c], (h - 1) as nat, bw));
                        assert(slot_wf(store, lb[c], (h - 1) as nat, bw));
                        assert forall|j: int|
                            #[trigger] slot_get(store, la[c], (h - 1) as nat, bw, j) == slot_get(
                                store,
                                lb[c],
                                (h - 1) as nat,
                                bw,
                                j,
                            ) by {
                            if 0 <= j < spi {
                                let i = c * spi + j;
                                assert(0 <= i && i / spi == c && i % spi == j)
                                    by (nonlinear_arith)
                                        requires
                                            spi > 0,
                                            0 <= j < spi,
                                            0 <= c,
                                            i == c * spi + j,
                                ;
                                assert(i / spi < la.len());
                                assert(slot_get(store, a, h, bw, i) == slot_get(
                                    store,
                                    la[c],
                                    (h - 1) as nat,
                                    bw,
                                    j,
                                ));
                                assert(slot_get(store, b, h, bw, i) == slot_get(
                                    store,
                                    lb[c],
                                    (h - 1) as nat,
                                    bw,
                                    j,
                                ));
                            } else {
                                assert((bw as nat) * (((h - 1) as nat) + 1) == bw * h)
                                    by (nonlinear_arith)
                                        requires
                                            h >= 1,
                                ;
                                assert(subtree_cap(bw, (h - 1) as nat) == span(bw, h));
                                lemma_slot_get_out_of_range(store, la[c], (h - 1) as nat, bw, j);
                                lemma_slot_get_out_of_range(store, lb[c], (h - 1) as nat, bw, j);
                            }
                        }
                        lemma_canonical_slot(store, la[c], lb[c], (h - 1) as nat, bw);
                    }
                    assert(la =~= lb);
                    assert(store[ca] =~~= store[cb]);
                    assert(ca == crate::amt::store::cid_of_block(store[ca]));
                    assert(cb == crate::amt::store::cid_of_block(store[cb]));
                },
                _ => {
                    // Well-formedness fixes the shape at each height, so
                    // mixed pairs cannot arise.
                    assert(false);
                },
            }
        },
    }
}

} // verus!
