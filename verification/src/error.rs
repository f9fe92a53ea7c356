use vstd::prelude::*;

verus! {

/// Failure kinds reported by decoding, field access and input handling.
///
/// Every structural check surfaces one of these; the codec never panics on
/// malformed input.
#[derive(Clone, Copy, Debug, PartialEq, Eq, Structural)]
pub enum CodecError {
    /// The buffer is too small to contain the declared structure.
    TooShort,
    /// The declared total length disagrees with the actual buffer length.
    LengthMismatch,
    /// The offset table violates monotonicity or its sentinel invariants.
    InvalidOffsets,
    /// A requested sub-range exceeds the buffer's extent.
    OutOfBounds,
    /// A fixed-width field's byte span has the wrong size.
    FieldWidthMismatch,
    /// The input was malformed before it reached the byte layer.
    InvalidInput,
}

} // verus!
