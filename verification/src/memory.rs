//! Bounds-checked access to an actor's linear memory, including reading
//! and writing content identifiers and reading addresses.

use vstd::prelude::*;

verus! {

/// The canonical binary encoding of a content identifier never exceeds
/// one hundred bytes.
pub const MAX_CID_LEN: usize = 100;

/// The typed error codes a syscall can hand back to the untrusted actor.
#[derive(Clone, Copy, Debug, PartialEq, Eq, Structural, Hash)]
pub enum SyscallErrorKind {
    IllegalArgument,
    BufferTooSmall,
    IllegalState,
    Serialization,
    NotFound,
}

/// What `cid::Cid::read_bytes` yields on a buffer: the canonical encoding
/// of the content identifier read from the buffer's prefix, or nothing
/// when no valid content identifier starts there.
pub uninterp spec fn cid_scan(b: Seq<u8>) -> Option<Seq<u8>>;

/// Relies on `cid::Cid::read_bytes`: parses a content identifier from the
/// prefix of a buffer, consuming at most `MAX_CID_LEN` bytes, and succeeds
/// for any valid content identifier whose encoding fits in the buffer.
/// The result is returned in its canonical encoding via `Cid::to_bytes`.
#[verifier::external_body]
fn cid_read_prefix(bytes: &[u8]) -> (r: Result<Vec<u8>, ()>)
    ensures
        match r {
            Ok(v) => cid_scan(bytes@) == Some(v@) && v@.len() <= MAX_CID_LEN,
            Err(_) => cid_scan(bytes@) is None,
        },
{
    match cid::Cid::read_bytes(bytes) {
        Ok(c) => Ok(c.to_bytes()),
        Err(_) => Err(()),
    }
}

/// What `fvm_shared::address::Address::from_bytes` accepts: the canonical
/// bytes of the address parsed from `b`, or nothing when `b` is not a
/// valid address encoding.
pub uninterp spec fn address_parse(b: Seq<u8>) -> Option<Seq<u8>>;

/// Relies on `fvm_shared::address::Address::from_bytes` and `to_bytes`:
/// parses an address from its byte encoding; the outcome depends on the
/// bytes alone.
#[verifier::external_body]
fn address_from_bytes(bytes: &[u8]) -> (r: Result<Vec<u8>, ()>)
    ensures
        match r {
            Ok(v) => address_parse(bytes@) == Some(v@),
            Err(_) => address_parse(bytes@) is None,
        },
{
    match fvm_shared::address::Address::from_bytes(bytes) {
        Ok(a) => Ok(a.to_bytes()),
        Err(_) => Err(()),
    }
}

/// An actor's linear memory. All methods are bounds-checked and total;
/// failures come back as typed syscall errors, never as panics.
pub struct Memory {
    pub data: Vec<u8>,
}

/// The syscall context: the running actor's kernel handle and its memory.
pub struct Context<K> {
    pub kernel: K,
    pub memory: Memory,
}

impl Memory {
    /// The memory's contents.
    pub open spec fn view_bytes(self) -> Seq<u8> {
        self.data@
    }

    /// Memory over the given bytes.
    pub fn new(data: Vec<u8>) -> (r: Memory)
        ensures
            r.view_bytes() == data@,
    {
        Memory { data }
    }

    /// The memory's size in bytes.
    pub fn len(&self) -> (r: usize)
        ensures
            r == self.view_bytes().len(),
    {
        self.data.len()
    }

    /// Check that the slice given by an offset and a length lies within
    /// the memory.
    pub fn check_bounds(&self, offset: u32, len: u32) -> (r: Result<(), SyscallErrorKind>)
        ensures
            r is Ok <==> offset + len <= self.view_bytes().len(),
            r is Err ==> r->Err_0 == SyscallErrorKind::IllegalArgument,
    {
        if (offset as u64) + (len as u64) <= (self.data.len() as u64) {
            Ok(())
        } else {
            Err(SyscallErrorKind::IllegalArgument)
        }
    }

    /// The `len` bytes of memory starting at `offset`, or an illegal
    /// argument error when that range is out of bounds.
    pub fn try_slice(&self, offset: u32, len: u32) -> (r: Result<Vec<u8>, SyscallErrorKind>)
        ensures
            r is Ok <==> offset + len <= self.view_bytes().len(),
            r matches Ok(v) ==> v@ == self.view_bytes().subrange(
                offset as int,
                offset as int + len as int,
            ),
            r is Err ==> r->Err_0 == SyscallErrorKind::IllegalArgument,
    {
        if (offset as u64) + (len as u64) <= (self.data.len() as u64) {
            let ghost mem_len = self.data@.len();
            proof {
                assert(mem_len <= usize::MAX);
            }
            let mut out: Vec<u8> = Vec::new();
            let mut i: usize = 0;
            while i < len as usize
                invariant
                    i <= len,
                    self.data@.len() == mem_len,
                    mem_len <= usize::MAX,
                    offset + len <= self.data@.len(),
                    out@ == self.data@.subrange(offset as int, offset as int + i as int),
                decreases len as int - i as int,
            {
                proof {
                    assert(offset + i < self.data@.len());
                }
                out.push(self.data[offset as usize + i]);
                proof {
                    assert(out@ =~= self.data@.subrange(offset as int, offset as int + i + 1));
                }
                i = i + 1;
            }
            Ok(out)
        } else {
            Err(SyscallErrorKind::IllegalArgument)
        }
    }

    /// Overwrite the `bytes.len()` bytes at `offset` with `bytes`; the rest
    /// of memory is untouched.
    fn write_at(&mut self, offset: u32, bytes: &Vec<u8>)
        requires
            offset + bytes@.len() <= old(self).view_bytes().len(),
        ensures
            final(self).view_bytes().len() == old(self).view_bytes().len(),
            final(self).view_bytes().subrange(offset as int, offset as int + bytes@.len() as int)
                == bytes@,
            forall|i: int|
                0 <= i < old(self).view_bytes().len() && !(offset <= i < offset + bytes@.len())
                    ==> final(self).view_bytes()[i] == old(self).view_bytes()[i],
    {
        let mem_len = self.data.len();
        let mut i: usize = 0;
        while i < bytes.len()
            invariant
                i <= bytes@.len(),
                self.data@.len() == mem_len,
                offset + bytes@.len() <= self.data@.len(),
                self.data@.len() == old(self).data@.len(),
                self.data@.subrange(offset as int, offset as int + i as int) == bytes@.take(
                    i as int,
                ),
                forall|j: int|
                    0 <= j < self.data@.len() && !(offset <= j < offset + i) ==> self.data@[j]
                        == old(self).data@[j],
            decreases bytes@.len() - i,
        {
            proof {
                assert(offset + i < self.data@.len());
            }
            self.data.set(offset as usize + i, bytes[i]);
            proof {
                assert(self.data@.subrange(offset as int, offset as int + i + 1) =~= bytes@.take(
                    i + 1,
                ));
            }
            i = i + 1;
        }
        proof {
            assert(bytes@.take(bytes@.len() as int) =~= bytes@);
        }
    }

    /// Read a content identifier from memory starting at `offset`. The
    /// read goes to the end of memory, not a fixed window, and consumes at
    /// most `MAX_CID_LEN` bytes; it succeeds for any valid content
    /// identifier whose encoding fits in the remaining bytes. The result
    /// is the identifier's canonical encoding.
    pub fn read_cid(&self, offset: u32) -> (r: Result<Vec<u8>, SyscallErrorKind>)
        ensures
            r is Ok <==> offset <= self.view_bytes().len() && cid_scan(
                self.view_bytes().skip(offset as int),
            ) is Some,
            r matches Ok(v) ==> Some(v@) == cid_scan(self.view_bytes().skip(offset as int)),
            r is Err ==> r->Err_0 == SyscallErrorKind::IllegalArgument,
    {
        if offset as usize > self.data.len() {
            return Err(SyscallErrorKind::IllegalArgument);
        }
        let mut tail: Vec<u8> = Vec::new();
        let mut i: usize = offset as usize;
        while i < self.data.len()
            invariant
                offset <= i <= self.data@.len(),
                tail@ == self.data@.subrange(offset as int, i as int),
            decreases self.data@.len() - i,
        {
            tail.push(self.data[i]);
            proof {
                assert(tail@ =~= self.data@.subrange(offset as int, i + 1));
            }
            i = i + 1;
        }
        proof {
            assert(tail@ =~= self.view_bytes().skip(offset as int));
        }
        match cid_read_prefix(tail.as_slice()) {
            Ok(v) => Ok(v),
            Err(_) => Err(SyscallErrorKind::IllegalArgument),
        }
    }

    /// Write a content identifier, given in its canonical encoding, into
    /// the window of `len` bytes at `offset`. Returns the number of bytes
    /// written. An out-of-bounds window is an illegal argument; a window
    /// too small for the identifier is a buffer-too-small error.
    pub fn write_cid(&mut self, k: &Vec<u8>, offset: u32, len: u32) -> (r: Result<
        u32,
        SyscallErrorKind,
    >)
        requires
            k@.len() <= MAX_CID_LEN,
        ensures
            r is Ok <==> offset + len <= old(self).view_bytes().len() && k@.len() <= len,
            r matches Ok(n) ==> n == k@.len() && final(self).view_bytes().len() == old(
                self,
            ).view_bytes().len() && final(self).view_bytes().subrange(
                offset as int,
                offset as int + k@.len() as int,
            ) == k@ && (forall|i: int|
                0 <= i < old(self).view_bytes().len() && !(offset <= i < offset + k@.len())
                    ==> final(self).view_bytes()[i] == old(self).view_bytes()[i]),
            r is Err ==> *final(self) == *old(self),
            r matches Err(e) ==> (e == SyscallErrorKind::IllegalArgument <==> offset + len > old(
                self,
            ).view_bytes().len()) && (e == SyscallErrorKind::BufferTooSmall <==> offset + len
                <= old(self).view_bytes().len() && k@.len() > len),
    {
        if (offset as u64) + (len as u64) > (self.data.len() as u64) {
            return Err(SyscallErrorKind::IllegalArgument);
        }
        if k.len() > len as usize {
            return Err(SyscallErrorKind::BufferTooSmall);
        }
        self.write_at(offset, k);
        Ok(k.len() as u32)
    }

    /// Read an address from the `len` bytes of memory at `offset`. Both an
    /// out-of-bounds range and bytes that do not parse as an address are
    /// illegal arguments.
    pub fn read_address(&self, offset: u32, len: u32) -> (r: Result<Vec<u8>, SyscallErrorKind>)
        ensures
            r is Ok <==> offset + len <= self.view_bytes().len() && address_parse(
                self.view_bytes().subrange(offset as int, offset as int + len as int),
            ) is Some,
            r matches Ok(v) ==> Some(v@) == address_parse(
                self.view_bytes().subrange(offset as int, offset as int + len as int),
            ),
            r is Err ==> r->Err_0 == SyscallErrorKind::IllegalArgument,
    {
        let bytes = match self.try_slice(offset, len) {
            Ok(b) => b,
            Err(e) => {
                return Err(e);
            },
        };
        match address_from_bytes(bytes.as_slice()) {
            Ok(v) => Ok(v),
            Err(_) => Err(SyscallErrorKind::IllegalArgument),
        }
    }
}

} // verus!
