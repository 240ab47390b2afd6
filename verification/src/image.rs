//! Frames: rectangular grids of colours.

use vstd::prelude::*;
use crate::color::Color;
use std::path::PathBuf;

verus! {

/// `std::path::PathBuf`: a path, carried through as it is.
#[verifier::external_type_specification]
#[verifier::external_body]
pub struct ExPathBuf(PathBuf);

/// What a frame is, mathematically: its dimensions and its pixels in raster
/// order (rows from top to bottom, each row from left to right).
pub struct Frame {
    pub width: u32,
    pub height: u32,
    pub pixels: Seq<Color>,
}

/// One frame of an animation. If it was read from disk, `path` holds the place
/// it was read from.
#[derive(Debug)]
pub struct Image {
    width: u32,
    height: u32,
    pixels: Vec<Color>,
    pub path: Option<PathBuf>,
}

impl View for Image {
    type V = Frame;

    closed spec fn view(&self) -> Frame {
        Frame { width: self.width, height: self.height, pixels: self.pixels@ }
    }
}

impl Image {
    /// The place the frame was read from, as contracts see it.
    pub closed spec fn origin(&self) -> Option<PathBuf> {
        self.path
    }

    /// A frame holds exactly one colour per position of its grid.
    pub open spec fn wf(&self) -> bool {
        self@.pixels.len() == self@.width * self@.height
    }

    /// Builds a frame from its pixels in raster order. Returns `None` when the
    /// number of pixels is not `width * height`.
    pub fn from_pixels(width: u32, height: u32, pixels: Vec<Color>) -> (r: Option<Image>)
        ensures
            pixels@.len() == width * height <==> r is Some,
            r matches Some(img) ==> img.wf() && img@ == (Frame {
                width,
                height,
                pixels: pixels@,
            }) && img.origin() is None,
    {
        assert(width * height <= 0xFFFF_FFFF_FFFF_FFFF) by (nonlinear_arith)
            requires
                width <= 0xFFFF_FFFF,
                height <= 0xFFFF_FFFF,
        ;
        let expected: u64 = (width as u64) * (height as u64);
        if pixels.len() as u64 == expected {
            Some(Image { width, height, pixels, path: None })
        } else {
            None
        }
    }

    /// The number of columns.
    pub fn width(&self) -> (w: u32)
        ensures
            w == self@.width,
    {
        self.width
    }

    /// The number of rows.
    pub fn height(&self) -> (h: u32)
        ensures
            h == self@.height,
    {
        self.height
    }

    /// The pixels in raster order.
    pub fn pixels(&self) -> (px: &Vec<Color>)
        ensures
            px@ == self@.pixels,
    {
        &self.pixels
    }
}

/// The pixels of all frames, one frame after the other.
pub open spec fn all_pixels(frames: Seq<Image>) -> Seq<Color>
    decreases frames.len(),
{
    if frames.len() == 0 {
        Seq::empty()
    } else {
        all_pixels(frames.drop_last()) + frames.last()@.pixels
    }
}

} // verus!
