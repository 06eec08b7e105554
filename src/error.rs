use vstd::prelude::*;

verus! {

/// Why a reply could not be decoded. Decoding is all-or-nothing: an error
/// carries no partially decoded reply.
#[derive(Debug, Clone, Copy, PartialEq, Eq, Structural)]
pub enum DecodeError {
    /// The first byte is not the rules-reply tag.
    InvalidHeader,
    /// A read needed more bytes than the input holds.
    UnexpectedEndOfInput,
    /// A mod record was found, but it ends before all of its fields.
    TruncatedModRecord,
}

} // verus!
