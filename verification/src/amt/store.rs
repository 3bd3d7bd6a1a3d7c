//! A content-addressed block store for trie nodes: blocks are keyed by the
//! content identifier of their canonical encoding, and an entry, once
//! written, is never replaced by different content.

use vstd::prelude::*;

use crate::amt::node::{
    store_extends, view_block, view_slots, BlockView, PersistNode, Slots, StoredBlock,
};
use crate::hash::sha256_digest;

verus! {

/// The multicodec tag this store marks its blocks with.
pub const DAG_CODEC: u64 = 0x71;

/// What `cid::Cid::new_v1` over a sha2-256 multihash yields: a function of
/// the codec and the digest alone.
pub uninterp spec fn cid_v1(codec: u64, digest: Seq<u8>) -> Seq<u8>;

/// Relies on `cid::multihash::Multihash::wrap` and `cid::Cid::new_v1`: the
/// canonical bytes of the version-one content identifier over a sha2-256
/// multihash of the given thirty-two byte digest.
#[verifier::external_body]
fn cid_v1_bytes(codec: u64, digest: &[u8]) -> (r: Vec<u8>)
    requires
        digest@.len() == 32,
    ensures
        r@ == cid_v1(codec, digest@),
        r@.len() <= 100,
{
    let mh = cid::multihash::Multihash::<64>::wrap(0x12, digest).expect(
        "a 32-byte digest always fits a 64-byte multihash",
    );
    cid::Cid::new_v1(codec, mh).to_bytes()
}

/// Whether two byte strings are equal.
pub fn bytes_eq(a: &Vec<u8>, b: &Vec<u8>) -> (r: bool)
    ensures
        r == (a@ == b@),
{
    if a.len() != b.len() {
        proof {
            assert(a@ != b@);
        }
        return false;
    }
    let mut i: usize = 0;
    while i < a.len()
        invariant
            i <= a@.len(),
            a@.len() == b@.len(),
            forall|j: int| 0 <= j < i ==> a@[j] == b@[j],
        decreases a@.len() - i,
    {
        if a[i] != b[i] {
            return false;
        }
        i = i + 1;
    }
    proof {
        assert(a@ =~= b@);
    }
    true
}

/// An owned copy of a byte string.
pub fn copy_bytes(a: &Vec<u8>) -> (r: Vec<u8>)
    ensures
        r@ == a@,
{
    let mut out: Vec<u8> = Vec::new();
    let mut i: usize = 0;
    while i < a.len()
        invariant
            i <= a@.len(),
            out@ == a@.take(i as int),
        decreases a@.len() - i,
    {
        out.push(a[i]);
        proof {
            assert(out@ =~= a@.take(i + 1));
        }
        i = i + 1;
    }
    proof {
        assert(a@.take(a@.len() as int) =~= a@);
    }
    out
}

/// An owned copy of an optional byte string.
pub fn copy_opt_bytes(a: &Option<Vec<u8>>) -> (r: Option<Vec<u8>>)
    ensures
        match a {
            Some(v) => r matches Some(w) && w@ == v@,
            None => r is None,
        },
{
    match a {
        Some(v) => Some(copy_bytes(v)),
        None => None,
    }
}

/// An owned copy of a row of slots, slot for slot.
pub fn copy_slots(a: &Slots) -> (r: Slots)
    ensures
        view_slots(r@) == view_slots(a@),
        r@.len() == a@.len(),
{
    let mut out: Slots = Vec::new();
    let mut i: usize = 0;
    while i < a.len()
        invariant
            i <= a@.len(),
            out@.len() == i,
            forall|j: int| 0 <= j < i ==> view_slots(out@)[j] == view_slots(a@)[j],
        decreases a@.len() - i,
    {
        out.push(copy_opt_bytes(&a[i]));
        i = i + 1;
    }
    proof {
        assert(view_slots(out@) =~= view_slots(a@));
    }
    out
}

fn opt_bytes_eq(a: &Option<Vec<u8>>, b: &Option<Vec<u8>>) -> (r: bool)
    ensures
        r == (match a {
            Some(v) => Some(v@),
            None => None::<Seq<u8>>,
        } == match b {
            Some(w) => Some(w@),
            None => None::<Seq<u8>>,
        }),
{
    match (a, b) {
        (Some(v), Some(w)) => bytes_eq(v, w),
        (None, None) => true,
        _ => false,
    }
}

fn slots_eq(a: &Slots, b: &Slots) -> (r: bool)
    ensures
        r == (view_slots(a@) == view_slots(b@)),
{
    if a.len() != b.len() {
        proof {
            assert(view_slots(a@).len() != view_slots(b@).len());
        }
        return false;
    }
    let mut i: usize = 0;
    while i < a.len()
        invariant
            i <= a@.len(),
            a@.len() == b@.len(),
            forall|j: int| 0 <= j < i ==> view_slots(a@)[j] == view_slots(b@)[j],
        decreases a@.len() - i,
    {
        if !opt_bytes_eq(&a[i], &b[i]) {
            proof {
                assert(view_slots(a@)[i as int] != view_slots(b@)[i as int]);
            }
            return false;
        }
        i = i + 1;
    }
    proof {
        assert(view_slots(a@) =~= view_slots(b@));
    }
    true
}

/// Whether two blocks have the same image.
fn block_eq(a: &StoredBlock, b: &StoredBlock) -> (r: bool)
    ensures
        r == (view_block(*a) =~~= view_block(*b)),
{
    match (a, b) {
        (StoredBlock::Node(PersistNode::Leaf(x)), StoredBlock::Node(PersistNode::Leaf(y))) => {
            slots_eq(x, y)
        },
        (StoredBlock::Node(PersistNode::Links(x)), StoredBlock::Node(PersistNode::Links(y))) => {
            slots_eq(x, y)
        },
        (
            StoredBlock::Root { bit_width: bw1, height: h1, count: c1, root: r1 },
            StoredBlock::Root { bit_width: bw2, height: h2, count: c2, root: r2 },
        ) => {
            bw1 == bw2 && h1 == h2 && c1 == c2 && opt_bytes_eq(r1, r2)
        },
        _ => false,
    }
}

/// The canonical encoding of a 64-bit integer: eight bytes, least
/// significant first.
pub open spec fn enc_u64(n: u64) -> Seq<u8> {
    seq![
        (n & 0xff) as u8,
        ((n >> 8) & 0xff) as u8,
        ((n >> 16) & 0xff) as u8,
        ((n >> 24) & 0xff) as u8,
        ((n >> 32) & 0xff) as u8,
        ((n >> 40) & 0xff) as u8,
        ((n >> 48) & 0xff) as u8,
        ((n >> 56) & 0xff) as u8,
    ]
}

fn push_u64(out: &mut Vec<u8>, n: u64)
    ensures
        final(out)@ == old(out)@ + enc_u64(n),
{
    out.push((n & 0xff) as u8);
    out.push(((n >> 8) & 0xff) as u8);
    out.push(((n >> 16) & 0xff) as u8);
    out.push(((n >> 24) & 0xff) as u8);
    out.push(((n >> 32) & 0xff) as u8);
    out.push(((n >> 40) & 0xff) as u8);
    out.push(((n >> 48) & 0xff) as u8);
    out.push(((n >> 56) & 0xff) as u8);
    proof {
        assert(out@ =~= old(out)@ + enc_u64(n));
    }
}

/// The canonical encoding of one optional byte string: an absence byte, or
/// a presence byte followed by the length and the bytes.
pub open spec fn enc_opt(o: Option<Seq<u8>>) -> Seq<u8> {
    match o {
        None => seq![0u8],
        Some(b) => seq![1u8] + enc_u64(b.len() as u64) + b,
    }
}

/// The canonical encoding of a row of slots, left to right.
pub open spec fn enc_slots(s: Seq<Option<Seq<u8>>>) -> Seq<u8>
    decreases s.len(),
{
    if s.len() == 0 {
        Seq::empty()
    } else {
        enc_slots(s.drop_last()) + enc_opt(s.last())
    }
}

/// The canonical encoding of a block: a tag byte, then the payload. The
/// content identifier of a block is computed over this encoding, so equal
/// images always yield equal identifiers.
pub open spec fn enc_block(b: BlockView) -> Seq<u8> {
    match b {
        BlockView::Leaf { vals } => seq![0u8] + enc_u64(vals.len() as u64) + enc_slots(vals),
        BlockView::Links { links } => seq![1u8] + enc_u64(links.len() as u64) + enc_slots(links),
        BlockView::Root { bit_width, height, count, root } => seq![2u8] + enc_u64(bit_width as u64)
            + enc_u64(height as u64) + enc_u64(count as u64) + enc_opt(root),
    }
}

fn push_opt(out: &mut Vec<u8>, o: &Option<Vec<u8>>)
    ensures
        final(out)@ == old(out)@ + enc_opt(
            match o {
                Some(b) => Some(b@),
                None => None,
            },
        ),
{
    match o {
        None => {
            out.push(0u8);
            proof {
                assert(out@ =~= old(out)@ + enc_opt(None::<Seq<u8>>));
            }
        },
        Some(b) => {
            out.push(1u8);
            push_u64(out, b.len() as u64);
            let mut i: usize = 0;
            let ghost before = out@;
            while i < b.len()
                invariant
                    i <= b@.len(),
                    out@ == before + b@.take(i as int),
                decreases b@.len() - i,
            {
                out.push(b[i]);
                proof {
                    assert(out@ =~= before + b@.take(i + 1));
                }
                i = i + 1;
            }
            proof {
                assert(b@.take(b@.len() as int) =~= b@);
                assert(out@ =~= old(out)@ + enc_opt(Some(b@)));
            }
        },
    }
}

fn encode_slots(out: &mut Vec<u8>, s: &Slots)
    ensures
        final(out)@ == old(out)@ + enc_slots(view_slots(s@)),
{
    let mut i: usize = 0;
    proof {
        assert(view_slots(s@).take(0) =~= Seq::<Option<Seq<u8>>>::empty());
        assert(enc_slots(Seq::<Option<Seq<u8>>>::empty()) =~= Seq::<u8>::empty());
        assert(out@ =~= old(out)@ + enc_slots(view_slots(s@).take(0)));
    }
    while i < s.len()
        invariant
            i <= s@.len(),
            out@ == old(out)@ + enc_slots(view_slots(s@).take(i as int)),
        decreases s@.len() - i,
    {
        let ghost prev = out@;
        push_opt(out, &s[i]);
        proof {
            assert(view_slots(s@).take(i + 1).drop_last() =~= view_slots(s@).take(i as int));
            assert(view_slots(s@).take(i + 1).last() == view_slots(s@)[i as int]);
            assert(out@ =~= old(out)@ + enc_slots(view_slots(s@).take(i + 1)));
        }
        i = i + 1;
    }
    proof {
        assert(view_slots(s@).take(s@.len() as int) =~= view_slots(s@));
    }
}

/// The canonical encoding of a block, matching `enc_block` of its image.
pub fn encode_block(b: &StoredBlock) -> (r: Vec<u8>)
    ensures
        r@ == enc_block(view_block(*b)),
{
    match b {
        StoredBlock::Node(PersistNode::Leaf(vals)) => {
            let mut out: Vec<u8> = Vec::new();
            out.push(0u8);
            push_u64(&mut out, vals.len() as u64);
            encode_slots(&mut out, vals);
            proof {
                assert(out@ =~= enc_block(view_block(*b)));
            }
            out
        },
        StoredBlock::Node(PersistNode::Links(links)) => {
            let mut out: Vec<u8> = Vec::new();
            out.push(1u8);
            push_u64(&mut out, links.len() as u64);
            encode_slots(&mut out, links);
            proof {
                assert(out@ =~= enc_block(view_block(*b)));
            }
            out
        },
        StoredBlock::Root { bit_width, height, count, root } => {
            let mut out: Vec<u8> = Vec::new();
            out.push(2u8);
            push_u64(&mut out, *bit_width as u64);
            push_u64(&mut out, *height as u64);
            push_u64(&mut out, *count);
            push_opt(&mut out, root);
            proof {
                assert(out@ =~= enc_block(view_block(*b)));
            }
            out
        },
    }
}

/// Why a trie operation failed.
#[derive(Clone, Copy, Debug, PartialEq, Eq, Structural, Hash)]
pub enum AmtError {
    /// The two tries handed to a diff use different bit widths.
    BitWidthMismatch,
    /// A block referenced by the trie is absent or has the wrong shape,
    /// or two distinct blocks collided on one content identifier. Fatal:
    /// the store no longer matches what this code wrote.
    CorruptStore,
    /// The root block a trie was to be loaded from is absent.
    RootNotFound,
    /// The root block records a different bit width than the caller asked
    /// for.
    ConfigMismatch,
    /// The index cannot be represented at any height this bit width
    /// supports within sixty-four index bits.
    IndexTooLarge,
}

/// The content identifier a block's canonical encoding dictates.
pub open spec fn cid_of_block(b: BlockView) -> Seq<u8> {
    cid_v1(DAG_CODEC as u64, crate::hash::sha256_of(enc_block(b)))
}

/// A content-addressed store: every entry sits under the identifier its
/// content dictates. Under this invariant two entries with equal images
/// always share one identifier, which is what makes the trie's serialized
/// form a function of its logical contents.
pub open spec fn content_addressed(m: Map<Seq<u8>, BlockView>) -> bool {
    forall|k: Seq<u8>| #[trigger] m.contains_key(k) ==> k == cid_of_block(m[k])
}

/// Whether the identifier function is collision free: distinct block
/// images never share an identifier. This holds of the real digest for
/// every input anyone can exhibit, but cannot be proved of an abstract
/// digest; contracts use it as a hypothesis to say when a write is owed
/// success.
pub open spec fn cid_injective() -> bool {
    forall|b1: BlockView, b2: BlockView|
        #[trigger] cid_of_block(b1) == #[trigger] cid_of_block(b2) ==> b1 =~~= b2
}

/// The map an entry list denotes: later entries win.
pub open spec fn entries_map(s: Seq<(Vec<u8>, StoredBlock)>) -> Map<Seq<u8>, BlockView>
    decreases s.len(),
{
    if s.len() == 0 {
        Map::empty()
    } else {
        entries_map(s.drop_last()).insert(s.last().0@, view_block(s.last().1))
    }
}

/// An in-memory content-addressed block store. Entries are keyed by the
/// content identifier of the block's canonical encoding; an entry, once
/// written, is never replaced by different content — an attempt to do so
/// is reported as a corrupt store.
#[derive(Debug)]
pub struct BlockStore {
    pub entries: Vec<(Vec<u8>, StoredBlock)>,
}

impl BlockStore {
    /// The store as a map from identifier bytes to block images.
    pub open spec fn view_map(self) -> Map<Seq<u8>, BlockView> {
        entries_map(self.entries@)
    }

    /// An empty store.
    pub fn new() -> (r: BlockStore)
        ensures
            r.view_map() == Map::<Seq<u8>, BlockView>::empty(),
            content_addressed(r.view_map()),
    {
        BlockStore { entries: Vec::new() }
    }

    /// The number of blocks held.
    pub fn len(&self) -> (r: usize)
        ensures
            r == self.entries@.len(),
    {
        self.entries.len()
    }

    /// An owned copy of the block stored under `cid`, if any.
    pub fn get(&self, cid: &Vec<u8>) -> (r: Option<StoredBlock>)
        ensures
            match r {
                Some(b) => self.view_map().contains_key(cid@) && self.view_map()[cid@]
                    =~~= view_block(b),
                None => !self.view_map().contains_key(cid@),
            },
    {
        let mut i: usize = self.entries.len();
        proof {
            assert(self.entries@.take(i as int) =~= self.entries@);
        }
        while i > 0
            invariant
                i <= self.entries@.len(),
                entries_map(self.entries@).contains_key(cid@) == entries_map(
                    self.entries@.take(i as int),
                ).contains_key(cid@),
                entries_map(self.entries@).contains_key(cid@) ==> entries_map(self.entries@)[cid@]
                    == entries_map(self.entries@.take(i as int))[cid@],
            decreases i,
        {
            proof {
                assert(self.entries@.take(i as int).drop_last() =~= self.entries@.take(i - 1));
                assert(self.entries@.take(i as int).last() == self.entries@[i - 1]);
            }
            if bytes_eq(&self.entries[i - 1].0, cid) {
                let found = &self.entries[i - 1].1;
                let copy = match found {
                    StoredBlock::Node(PersistNode::Leaf(vals)) => StoredBlock::Node(
                        PersistNode::Leaf(copy_slots(vals)),
                    ),
                    StoredBlock::Node(PersistNode::Links(links)) => StoredBlock::Node(
                        PersistNode::Links(copy_slots(links)),
                    ),
                    StoredBlock::Root { bit_width, height, count, root } => StoredBlock::Root {
                        bit_width: *bit_width,
                        height: *height,
                        count: *count,
                        root: copy_opt_bytes(root),
                    },
                };
                proof {
                    assert(view_block(copy) =~~= view_block(self.entries@[i - 1].1));
                }
                return Some(copy);
            }
            i = i - 1;
        }
        proof {
            assert(self.entries@.take(0) =~= Seq::<(Vec<u8>, StoredBlock)>::empty());
        }
        None
    }

    /// Store `block` under the content identifier of its canonical
    /// encoding and return that identifier. When an entry with the same
    /// identifier and the same content is already present nothing changes;
    /// one with different content is a detected collision and reported as
    /// a corrupt store — the exact and only failure, so on a
    /// content-addressed store with a collision-free identifier the write
    /// always succeeds. Either way every earlier entry is untouched.
    pub fn put_block(&mut self, block: StoredBlock) -> (r: Result<Vec<u8>, AmtError>)
        ensures
            store_extends(old(self).view_map(), final(self).view_map()),
            content_addressed(old(self).view_map()) ==> content_addressed(
                final(self).view_map(),
            ),
            r is Err <==> old(self).view_map().contains_key(cid_of_block(view_block(block)))
                && !(old(self).view_map()[cid_of_block(view_block(block))] =~~= view_block(
                block,
            )),
            content_addressed(old(self).view_map()) && cid_injective() ==> r is Ok,
            r matches Ok(cid) ==> cid@ == cid_of_block(view_block(block)) && cid@.len() <= 100
                && final(self).view_map() == old(self).view_map().insert(cid@, view_block(block)),
            r matches Err(e) ==> e == AmtError::CorruptStore && final(self).view_map() == old(
                self,
            ).view_map(),
    {
        let encoded = encode_block(&block);
        let digest = sha256_digest(encoded.as_slice());
        let cid = cid_v1_bytes(DAG_CODEC, digest.as_slice());
        match self.get(&cid) {
            Some(existing) => {
                if block_eq(&existing, &block) {
                    proof {
                        assert(final(self).view_map() =~= old(self).view_map().insert(
                            cid@,
                            view_block(block),
                        ));
                    }
                    Ok(cid)
                } else {
                    Err(AmtError::CorruptStore)
                }
            },
            None => {
                let ghost before = self.entries@;
                let cid_copy = copy_bytes(&cid);
                self.entries.push((cid_copy, block));
                proof {
                    assert(self.entries@.drop_last() =~= before);
                    assert(self.entries@.last().0@ == cid@);
                }
                Ok(cid)
            },
        }
    }
}

} // verus!
