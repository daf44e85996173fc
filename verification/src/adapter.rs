//! The record adapter: translates raw write payloads and read requests from
//! the host into ring-store operations.
//!
//! A write payload is appended to the record under construction; if the
//! payload holds the delimiter byte anywhere, the record is sealed afterward.
//! A read request copies out up to the requested number of bytes from the
//! oldest unread record. The byte-offset argument the host passes along is
//! accepted for interface compatibility but never used for seeking; it is
//! only checked to be representable in the store's index type.

use vstd::prelude::*;

use crate::ring::{append_tr, read_bytes, read_tr, seal_tr, RingStore, RingView};

verus! {

/// The byte whose presence anywhere in a write payload seals the record
/// under construction (newline).
pub const DELIMITER: u8 = 10;

/// The payload holds the delimiter byte somewhere.
pub open spec fn contains_delimiter(s: Seq<u8>) -> bool {
    exists|i: int| 0 <= i < s.len() && s[i] == DELIMITER
}

/// What one write call does to the store: the payload is appended, and the
/// record is sealed when the payload holds the delimiter anywhere.
pub open spec fn write_tr(v: RingView, payload: Seq<u8>) -> RingView {
    if contains_delimiter(payload) {
        seal_tr(append_tr(v, payload))
    } else {
        append_tr(v, payload)
    }
}

/// Why an adapter call failed. Every failure is terminal for that single
/// call and reported synchronously; eviction is never an error.
#[derive(Clone, Copy, Debug, PartialEq, Eq, Structural)]
pub enum StoreError {
    /// The caller's byte offset cannot be represented in the store's index
    /// type. The operation is aborted with no side effects.
    InvalidOffset,
    /// Growing a slot could not be satisfied by the allocator. Reserved for
    /// hosts whose allocators report failure; this store grows its slots
    /// through infallible allocation and never returns it.
    AllocationFailure,
}

/// The translation layer between the host's write/read calls and one ring
/// store. It owns no state beyond the store it drives.
pub struct RecordAdapter {
    store: RingStore,
}

impl View for RecordAdapter {
    type V = RingView;

    closed spec fn view(&self) -> RingView {
        self.store@
    }
}

impl RecordAdapter {
    /// Wraps a ring store.
    pub fn new(store: RingStore) -> (a: RecordAdapter)
        ensures
            a@ == store@,
    {
        RecordAdapter { store }
    }

    /// Answers the host's open call. Opening acquires nothing and enforces
    /// no resource limit; it never fails.
    pub fn handle_open(&self) -> (r: Result<(), StoreError>)
        ensures
            r == Ok::<(), StoreError>(()),
    {
        Ok(())
    }

    /// Answers the host's write call: appends the payload to the record
    /// under construction and seals the record if the payload holds the
    /// delimiter anywhere (at most one seal per call, however many
    /// delimiters the payload holds). Returns the number of payload bytes
    /// accepted; the terminator byte a seal appends is not counted. Fails
    /// only when `offset` cannot be represented in the store's index type,
    /// and then changes nothing.
    pub fn handle_write(&mut self, payload: &[u8], offset: u64) -> (r: Result<usize, StoreError>)
        requires
            old(self)@.wf(),
        ensures
            final(self)@.wf(),
            offset <= usize::MAX ==> {
                &&& r == Ok::<usize, StoreError>(payload@.len() as usize)
                &&& final(self)@ == write_tr(old(self)@, payload@)
            },
            offset > usize::MAX ==> {
                &&& r == Err::<usize, StoreError>(StoreError::InvalidOffset)
                &&& final(self)@ == old(self)@
            },
    {
        if offset > usize::MAX as u64 {
            return Err(StoreError::InvalidOffset);
        }
        let mut sealing = false;
        let mut i: usize = 0;
        while i < payload.len()
            invariant
                i <= payload@.len(),
                sealing <==> contains_delimiter(payload@.take(i as int)),
            decreases payload@.len() - i,
        {
            if payload[i] == DELIMITER {
                sealing = true;
            }
            proof {
                assert(payload@.take(i + 1).drop_last() =~= payload@.take(i as int));
                assert(payload@.take(i + 1).last() == payload@[i as int]);
            }
            i = i + 1;
        }
        proof {
            assert(payload@.take(payload@.len() as int) =~= payload@);
        }
        let count = self.store.append(payload);
        if sealing {
            self.store.seal();
        }
        Ok(count)
    }

    /// Answers the host's read call: copies out up to `capacity` bytes from
    /// the oldest unread record and advances past that record only when all
    /// of it was returned. Fails only when `offset` cannot be represented in
    /// the store's index type, and then changes nothing.
    pub fn handle_read(&mut self, capacity: usize, offset: u64) -> (r: Result<
        Vec<u8>,
        StoreError,
    >)
        requires
            old(self)@.wf(),
        ensures
            final(self)@.wf(),
            offset <= usize::MAX ==> {
                &&& r matches Ok(out) && out@ == read_bytes(old(self)@, capacity as nat)
                &&& final(self)@ == read_tr(old(self)@, capacity as nat)
            },
            offset > usize::MAX ==> {
                &&& r matches Err(e) && e == StoreError::InvalidOffset
                &&& final(self)@ == old(self)@
            },
    {
        if offset > usize::MAX as u64 {
            return Err(StoreError::InvalidOffset);
        }
        Ok(self.store.read(capacity))
    }
}

} // verus!
