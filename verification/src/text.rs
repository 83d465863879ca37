//! Validity of text fields.
//!
//! Text fields of the record are stored as their raw bytes; a decode accepts
//! them only when they are validly encoded. What "validly encoded" means is
//! UTF-8, whose exact shape the library does not restate: it is named by an
//! uninterpreted predicate and decided by the standard library.
use vstd::prelude::*;

verus! {

/// Whether a byte run is validly encoded text.
pub uninterp spec fn utf8_valid(s: Seq<u8>) -> bool;

/// Relies on core::str::from_utf8, which returns `Ok` exactly when the bytes
/// are valid UTF-8 — a property of the bytes alone.
#[verifier::external_body]
pub(crate) fn check_utf8(b: &[u8]) -> (r: bool)
    ensures
        r == utf8_valid(b@),
{
    core::str::from_utf8(b).is_ok()
}

} // verus!
