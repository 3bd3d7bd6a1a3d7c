//! Key hashing for the hash trie: keys are byte strings, hashed to a
//! thirty-two byte hashed key by a configurable algorithm.

use vstd::prelude::*;

verus! {

/// The length of a hashed key in bytes.
pub const HASHED_KEY_LEN: usize = 32;

/// What `sha2::Sha256` computes: the digest depends on the input bytes
/// alone.
pub uninterp spec fn sha256_of(b: Seq<u8>) -> Seq<u8>;

/// Relies on `sha2::Sha256::digest`: a thirty-two byte digest that is a
/// function of the input bytes alone.
#[verifier::external_body]
pub(crate) fn sha256_digest(bytes: &[u8]) -> (r: Vec<u8>)
    ensures
        r@ == sha256_of(bytes@),
        r@.len() == HASHED_KEY_LEN,
{
    let digest = <sha2::Sha256 as sha2::Digest>::digest(bytes);
    digest.as_slice().to_vec()
}

/// The first thirty-two bytes of `b`, padded with zeroes.
pub open spec fn identity_hash_of(b: Seq<u8>) -> Seq<u8> {
    Seq::new(
        HASHED_KEY_LEN as nat,
        |i: int|
            if i < b.len() {
                b[i]
            } else {
                0u8
            },
    )
}

/// An algorithm hashing a byte-string key to a thirty-two byte hashed key.
pub trait HashAlgorithm {
    /// The hashed key this algorithm assigns to `key`.
    spec fn spec_hash(key: Seq<u8>) -> Seq<u8>;

    /// Hash a key.
    fn hash(key: &[u8]) -> (r: Vec<u8>)
        ensures
            r@ == Self::spec_hash(key@),
            r@.len() == HASHED_KEY_LEN,
    ;
}

/// The production hashing algorithm: the sha2 256-bit digest of the key.
pub struct Sha256;

impl HashAlgorithm for Sha256 {
    open spec fn spec_hash(key: Seq<u8>) -> Seq<u8> {
        sha256_of(key)
    }

    fn hash(key: &[u8]) -> (r: Vec<u8>) {
        sha256_digest(key)
    }
}

/// The identity algorithm, for testing only: the hashed key is the first
/// thirty-two bytes of the key, zero-padded.
pub struct Identity;

impl HashAlgorithm for Identity {
    open spec fn spec_hash(key: Seq<u8>) -> Seq<u8> {
        identity_hash_of(key)
    }

    fn hash(key: &[u8]) -> (r: Vec<u8>) {
        let mut out: Vec<u8> = Vec::new();
        let mut i: usize = 0;
        while i < HASHED_KEY_LEN
            invariant
                i <= HASHED_KEY_LEN,
                out@.len() == i,
                forall|j: int|
                    0 <= j < i ==> out@[j] == identity_hash_of(key@)[j],
            decreases HASHED_KEY_LEN - i,
        {
            if i < key.len() {
                out.push(key[i]);
            } else {
                out.push(0u8);
            }
            i = i + 1;
        }
        proof {
            assert(out@ =~= identity_hash_of(key@));
        }
        out
    }
}

} // verus!
