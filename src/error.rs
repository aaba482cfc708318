use vstd::prelude::*;

verus! {

/// What can go wrong while encoding or decoding an image.
#[derive(Clone, Copy, PartialEq, Eq, Structural, Debug)]
pub enum Error {
    /// The width or the height is zero where the format does not allow it.
    ZeroImageDimensions,
    /// The input buffer is shorter than the header and pixel plane need.
    InputBufferTooSmall,
    /// The output buffer is shorter than the encoded image.
    OutputBufferTooSmall,
    /// The header names a format variant that is not implemented.
    UnsupportedFormat,
}

/// The result of an encoding or decoding operation.
pub type Result<T> = core::result::Result<T, Error>;

} // verus!
