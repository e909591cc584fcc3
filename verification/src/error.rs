use vstd::prelude::*;

verus! {

/// The ways a decode can fail: the input ended before a complete header
/// field, or the leading magic number did not name the requested file kind.
/// The default decoders never fail on payload length; only the strict
/// variants report a mismatch between payload and declared counts.
#[derive(Debug, Clone, Copy, PartialEq, Eq, Structural)]
pub enum ParseError {
    /// Fewer than four bytes remained where a header field was expected.
    TruncatedInput,
    /// The first four bytes did not hold this decoder's magic number.
    WrongMagic,
    /// Strict mode only: the payload length differs from what the declared
    /// header counts imply.
    LengthMismatch,
}

} // verus!
