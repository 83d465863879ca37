use vstd::prelude::*;

verus! {

/// The typed failures of the codec and the cipher layer.
///
/// Every error is fatal to the enclosing operation: no partial decode or
/// encode is ever returned.
#[derive(Clone, Copy, Debug, PartialEq, Eq, Structural)]
pub enum PlrError {
    /// The buffer is shorter than a declared field requires.
    TruncatedInput,
    /// A buffer length is not a multiple of the cipher block size where
    /// alignment is required.
    BlockAlignmentError,
    /// A length-prefixed text field is not validly encoded.
    InvalidText,
    /// The caller requested a schema the codec does not implement.
    UnsupportedSchema,
    /// The key bytes do not match the cipher's required key size.
    KeyLengthMismatch,
}

} // verus!
