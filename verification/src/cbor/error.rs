use vstd::prelude::*;

verus! {

/// Why a byte stream could not be decoded.
#[derive(Clone, Copy, Debug, PartialEq, Eq, Structural)]
pub enum DecodeError {
    /// The cursor required more bytes than remained.
    UnexpectedEndOfInput,
    /// A reserved additional-information value, a negative magnitude that
    /// does not fit in 64 signed bits, a byte-string length beyond what the
    /// machine can address, or a map key met twice where that is rejected.
    MalformedInput,
    /// Additional information 31: an indefinite-length item.
    UnsupportedIndefiniteLength,
    /// Major type 3 or 7: a text string, a float or a simple value.
    Unimplemented,
    /// Arrays and maps were nested deeper than the configured ceiling.
    RecursionLimitExceeded,
}

} // verus!
