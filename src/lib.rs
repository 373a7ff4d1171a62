//! Framing and integrity primitives for an append-only log of triple records
//! ("tribles") and binary blobs: digests, an XOR hash aggregate for
//! content-addressed tries, and the signed/checksummed transaction codecs.
pub mod aggregate;
pub mod bytes;
pub mod digest;
pub mod error;
pub mod signature;
pub mod trible_txn;
pub mod blob_txn;
