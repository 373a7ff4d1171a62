use vstd::prelude::*;

verus! {

/// Every way an operation of this crate can reject its input.
#[derive(Debug, Clone, Copy, PartialEq, Eq, Structural)]
pub enum CodecError {
    /// The zero sentinel is not zero, or the tag names no known transaction kind.
    MalformedHeader,
    /// The buffer ends before the size that its header declares: read more bytes.
    IncompleteInput,
    /// A payload that is not a whole number of records, or hash operands of unequal width.
    SizeMismatch,
    /// The signature does not verify against the embedded public key.
    SignatureInvalid,
    /// The chunk with this index does not match its checksum.
    ChecksumMismatch(u64),
    /// The blob hash or the chunk-tree hash does not match the content.
    HashMismatch,
    /// A secret or key has the wrong width.
    KeyConfigurationError,
}

} // verus!
