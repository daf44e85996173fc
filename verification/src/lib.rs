//! A fixed-capacity circular log store.
//!
//! A ring of slots holds variable-length byte records. Records are written
//! sequentially through a write cursor, sealed when a delimiter byte is seen,
//! and consumed sequentially through a read cursor. When the ring fills, the
//! oldest unread record is silently evicted to make room for new writes.

pub mod ring;
pub mod adapter;
pub mod laws;
