//! What can go wrong while an animation is made or written.

use vstd::prelude::*;
use gif::EncodingError;

verus! {

/// `gif::EncodingError`: why the encoder refused. It is carried through as
/// it is.
#[verifier::external_type_specification]
#[verifier::external_body]
pub struct ExEncodingError(EncodingError);

/// Why there is no animation, or why it could not be written.
#[derive(Debug)]
pub enum Error {
    /// No frames were given.
    NoImages,
    /// A frame differs in size from the first one. Holds the first frame's
    /// width and height, then those of the frame that differs.
    Mismatch((u32, u32), (u32, u32)),
    /// The encoder could not write the animation.
    ImageWrite(EncodingError),
}

impl Error {
    /// A short description of the error.
    pub fn description(&self) -> (text: &'static str)
        ensures
            text@ == match self {
                Error::NoImages => "No frames sent for engiffening"@,
                Error::Mismatch(_, _) => "Frames don't have the same dimensions"@,
                Error::ImageWrite(_) => "Unable to write image"@,
            },
    {
        match self {
            Error::NoImages => "No frames sent for engiffening",
            Error::Mismatch(_, _) => "Frames don't have the same dimensions",
            Error::ImageWrite(_) => "Unable to write image",
        }
    }
}

} // verus!
