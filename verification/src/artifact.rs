//! Artifact blobs and their readable / writable views.
//!
//! A finalized blob is a small envelope around an opaque payload: the first
//! eight bytes hold the payload length (little endian), the rest is the
//! payload itself. The redundancy lets a reader check a stored blob for
//! structural soundness, so that "entry present but unusable" can be told
//! apart from "no entry" and from "write failed".

use vstd::bytes::{
    lemma_auto_spec_u64_to_from_le_bytes, spec_u64_from_le_bytes, spec_u64_to_le_bytes,
    u64_from_le_bytes, u64_to_le_bytes,
};
use vstd::prelude::*;
use vstd::slice::{slice_index_get, slice_subrange};

verus! {

/// Errors surfaced by the storage backend.
#[derive(Clone, Copy, Debug, PartialEq, Eq, Structural)]
pub enum CacheError {
    /// A writable artifact was finalized before it was marked complete.
    IncompleteWrite,
    /// A stored blob failed its structural check and cannot be read back.
    CorruptEntry,
    /// Storing the blob would push the byte accounting past `u64::MAX`.
    SizeOverflow,
}

/// Length in bytes of the envelope header that precedes every payload.
pub const HEADER_LEN: usize = 8;

/// The finalized form of a payload: its length, little endian in eight bytes,
/// followed by the payload itself.
pub open spec fn frame_of(payload: Seq<u8>) -> Seq<u8> {
    spec_u64_to_le_bytes(payload.len() as u64) + payload
}

/// Structural soundness of a blob: it is long enough to hold the header, and
/// the header agrees with the number of payload bytes that follow it.
pub open spec fn is_frame(blob: Seq<u8>) -> bool {
    &&& blob.len() >= HEADER_LEN
    &&& spec_u64_from_le_bytes(blob.subrange(0, HEADER_LEN as int)) == blob.len() - HEADER_LEN
}

/// The payload carried by a structurally sound blob.
pub open spec fn payload_of(blob: Seq<u8>) -> Seq<u8> {
    blob.subrange(HEADER_LEN as int, blob.len() as int)
}

/// Finalizing and reading back are inverses: the blob built from a payload
/// passes the structural check and carries the payload unchanged.
pub proof fn lemma_frame_roundtrip(payload: Seq<u8>)
    requires
        payload.len() <= u64::MAX,
    ensures
        is_frame(frame_of(payload)),
        payload_of(frame_of(payload)) == payload,
{
    lemma_auto_spec_u64_to_from_le_bytes();
    assert(frame_of(payload).subrange(0, HEADER_LEN as int) =~= spec_u64_to_le_bytes(
        payload.len() as u64,
    ));
    assert(payload_of(frame_of(payload)) =~= payload);
}

/// A writable, not-yet-finalized artifact: a payload under construction.
///
/// The writer collects payload bytes and must be marked complete before it can
/// be finalized; finalizing an incomplete writer is the "write failed" error.
#[derive(Debug)]
pub struct CacheWrite {
    data: Vec<u8>,
    sealed: bool,
}

impl View for CacheWrite {
    type V = Seq<u8>;

    closed spec fn view(&self) -> Seq<u8> {
        self.data@
    }
}

impl CacheWrite {
    /// Whether the writer has been marked complete.
    pub closed spec fn is_complete(self) -> bool {
        self.sealed
    }

    /// A fresh writer with an empty payload.
    pub fn new() -> (w: CacheWrite)
        ensures
            w@ == Seq::<u8>::empty(),
            !w.is_complete(),
    {
        CacheWrite { data: Vec::new(), sealed: false }
    }

    /// Append a chunk of payload bytes.
    pub fn write_bytes(&mut self, chunk: &[u8])
        requires
            !old(self).is_complete(),
        ensures
            final(self)@ == old(self)@ + chunk@,
            !final(self).is_complete(),
    {
        let mut i: usize = 0;
        while i < chunk.len()
            invariant
                i <= chunk@.len(),
                self.data@ == old(self).data@ + chunk@.subrange(0, i as int),
                self.sealed == old(self).sealed,
            decreases chunk@.len() - i,
        {
            let b = *slice_index_get(chunk, i);
            self.data.push(b);
            proof {
                assert(self.data@ =~= old(self).data@ + chunk@.subrange(0, i + 1));
            }
            i = i + 1;
        }
        proof {
            assert(chunk@.subrange(0, chunk@.len() as int) =~= chunk@);
        }
    }

    /// Mark the writer complete; the payload is fixed from here on.
    pub fn complete(&mut self)
        ensures
            final(self)@ == old(self)@,
            final(self).is_complete(),
    {
        self.sealed = true;
    }

    /// Finalize the writer into an immutable blob.
    ///
    /// Succeeds exactly when the writer was marked complete; the result is the
    /// payload wrapped in its envelope. An incomplete writer is rejected with
    /// [`CacheError::IncompleteWrite`].
    pub fn finish(self) -> (r: Result<Vec<u8>, CacheError>)
        ensures
            self.is_complete() <==> r is Ok,
            r matches Ok(blob) ==> blob@ == frame_of(self@) && is_frame(blob@),
            r matches Err(e) ==> e == CacheError::IncompleteWrite,
    {
        if !self.sealed {
            return Err(CacheError::IncompleteWrite);
        }
        let len64: u64 = self.data.len() as u64;
        let mut out = u64_to_le_bytes(len64);
        let mut i: usize = 0;
        while i < self.data.len()
            invariant
                i <= self.data@.len(),
                len64 == self.data@.len(),
                out@ == spec_u64_to_le_bytes(len64) + self.data@.subrange(0, i as int),
            decreases self.data@.len() - i,
        {
            let b = *slice_index_get(self.data.as_slice(), i);
            out.push(b);
            proof {
                assert(out@ =~= spec_u64_to_le_bytes(len64) + self.data@.subrange(0, i + 1));
            }
            i = i + 1;
        }
        proof {
            assert(self.data@.subrange(0, self.data@.len() as int) =~= self.data@);
            lemma_frame_roundtrip(self.data@);
        }
        Ok(out)
    }
}

/// An immutable, readable view of one stored blob, validated on construction.
#[derive(Debug)]
pub struct CacheRead {
    data: Vec<u8>,
}

impl View for CacheRead {
    type V = Seq<u8>;

    closed spec fn view(&self) -> Seq<u8> {
        self.data@
    }
}

impl CacheRead {
    /// Structural soundness of the blob behind this view.
    pub open spec fn wf(self) -> bool {
        is_frame(self@)
    }

    /// Validate a blob and wrap it in a readable view.
    ///
    /// Succeeds exactly when the blob is structurally sound; anything else is
    /// rejected with [`CacheError::CorruptEntry`].
    pub fn from(blob: Vec<u8>) -> (r: Result<CacheRead, CacheError>)
        ensures
            is_frame(blob@) <==> r is Ok,
            r matches Ok(cr) ==> cr@ == blob@ && cr.wf(),
            r matches Err(e) ==> e == CacheError::CorruptEntry,
    {
        if blob.len() < HEADER_LEN {
            return Err(CacheError::CorruptEntry);
        }
        let header = u64_from_le_bytes(slice_subrange(blob.as_slice(), 0, HEADER_LEN));
        let body_len: u64 = (blob.len() - HEADER_LEN) as u64;
        if header != body_len {
            return Err(CacheError::CorruptEntry);
        }
        Ok(CacheRead { data: blob })
    }

    /// The full blob bytes, envelope included.
    pub fn bytes(&self) -> (r: &Vec<u8>)
        ensures
            r@ == self@,
    {
        &self.data
    }

    /// The payload carried by the artifact, without the envelope.
    pub fn payload(&self) -> (r: Vec<u8>)
        requires
            self.wf(),
        ensures
            r@ == payload_of(self@),
    {
        let s = slice_subrange(self.data.as_slice(), HEADER_LEN, self.data.len());
        let mut out: Vec<u8> = Vec::new();
        let mut i: usize = 0;
        while i < s.len()
            invariant
                i <= s@.len(),
                out@ == s@.subrange(0, i as int),
            decreases s@.len() - i,
        {
            let b = *slice_index_get(s, i);
            out.push(b);
            proof {
                assert(out@ =~= s@.subrange(0, i + 1));
            }
            i = i + 1;
        }
        proof {
            assert(s@.subrange(0, s@.len() as int) =~= s@);
        }
        out
    }
}

/// Result of a lookup: either a readable view of the stored blob, or nothing.
#[derive(Debug)]
pub enum Cache {
    Hit(CacheRead),
    Miss,
}

} // verus!
