//! The animation and how it is written out as a GIF stream.

use vstd::prelude::*;
use crate::error::Error;
use gif::{Encoder, EncodingError, Frame, Repeat};
use std::borrow::Cow;

verus! {

/// An animation: a colour table of three bytes (red, green, blue) per slot, the
/// slot that stands for full transparency if there is one, the size of the
/// frames, one array of slots per frame in raster order, and the time each
/// frame is shown in milliseconds.
#[derive(Debug, Clone, PartialEq, Eq, Hash)]
pub struct Gif {
    pub palette: Vec<u8>,
    pub transparency: Option<u8>,
    pub width: u16,
    pub height: u16,
    pub images: Vec<Vec<u8>>,
    pub delay: u16,
}

/// A GIF encoder that writes into a vector of bytes. Inside it is a
/// `gif::Encoder<Vec<u8>>`.
#[verifier::external_body]
pub struct Muxer {
    inner: Encoder<Vec<u8>>,
}

/// What a muxer has written so far.
pub uninterp spec fn muxer_bytes(m: Muxer) -> Seq<u8>;

/// Whether a muxer was started with a colour table of at least one colour.
/// Without one it refuses every frame.
pub uninterp spec fn muxer_has_palette(m: Muxer) -> bool;

/// The start of a GIF stream: signature, logical screen and global colour table.
pub uninterp spec fn screen_block(width: u16, height: u16, palette: Seq<u8>) -> Seq<u8>;

/// One frame of a GIF stream: its control extension, its image descriptor and
/// its compressed slots.
pub uninterp spec fn frame_block(
    delay: u16,
    width: u16,
    height: u16,
    transparent: Option<u8>,
    buffer: Seq<u8>,
) -> Seq<u8>;

/// The application extension that tells a player how often to repeat the
/// animation; `None` stands for repeating forever. No block is written for
/// zero repetitions.
pub open spec fn repeat_block(repeats: Option<u16>) -> Seq<u8> {
    let n: u16 = match repeats {
        Some(n) => n,
        None => 0,
    };
    if repeats == Some(0u16) {
        Seq::empty()
    } else {
        seq![
            0x21u8, 0xFF, 0x0B, 0x4E, 0x45, 0x54, 0x53, 0x43, 0x41, 0x50, 0x45, 0x32, 0x2E, 0x30,
            0x03, 0x01, (n % 256) as u8, (n / 256) as u8, 0x00,
        ]
    }
}

/// The byte that ends a GIF stream.
pub open spec fn trailer_block() -> Seq<u8> {
    seq![0x3Bu8]
}

/// Calls `Encoder::new` with `sink` as the place to write to. The encoder
/// refuses a colour table of more than 256 colours and nothing else, since
/// writing to a vector does not fail; otherwise it writes the start of the
/// stream behind what `sink` holds. It notes whether the table holds a
/// colour at all.
#[verifier::external_body]
fn muxer_start(sink: Vec<u8>, width: u16, height: u16, palette: &Vec<u8>) -> (r: Result<Muxer, EncodingError>)
    ensures
        r matches Ok(m) ==> muxer_bytes(m) == sink@ + screen_block(width, height, palette@),
        r matches Ok(m) ==> muxer_has_palette(m) == (palette@.len() >= 3),
        r is Ok <==> palette@.len() / 3 <= 256,
{
    Ok(Muxer { inner: Encoder::new(sink, width, height, palette)? })
}

/// Calls `Encoder::set_repeat`, with `Repeat::Infinite` for `None` and
/// `Repeat::Finite` for a number: the encoder writes the repetition block.
/// Nothing but writing can fail there, and writing to a vector does not.
#[verifier::external_body]
fn muxer_repeat(m: &mut Muxer, repeats: Option<u16>) -> (r: Result<(), EncodingError>)
    ensures
        r is Ok,
        muxer_bytes(*final(m)) == muxer_bytes(*old(m)) + repeat_block(repeats),
        muxer_has_palette(*final(m)) == muxer_has_palette(*old(m)),
{
    m.inner.set_repeat(
        match repeats {
            Some(n) => Repeat::Finite(n),
            None => Repeat::Infinite,
        },
    )
}

/// Calls `Encoder::write_frame` with a frame that has the given delay (in
/// hundredths of a second), size, transparent slot and slots, and is
/// otherwise `Frame::default()`. The encoder refuses a frame with fewer slots
/// than its size asks for, and every frame if it has no colour table; it may
/// also fail for want of memory. Otherwise it writes the frame.
#[verifier::external_body]
fn muxer_frame(
    m: &mut Muxer,
    delay: u16,
    width: u16,
    height: u16,
    transparent: Option<u8>,
    buffer: &Vec<u8>,
) -> (r: Result<(), EncodingError>)
    requires
        (width > 0 && height > 0) || buffer@.len() == 0,
    ensures
        r is Ok ==> muxer_bytes(*final(m)) == muxer_bytes(*old(m)) + frame_block(
            delay,
            width,
            height,
            transparent,
            buffer@,
        ),
        r is Ok ==> buffer@.len() >= width * height,
        r is Ok ==> muxer_has_palette(*old(m)),
        muxer_has_palette(*final(m)) == muxer_has_palette(*old(m)),
{
    let mut frame = Frame::default();
    frame.delay = delay;
    frame.width = width;
    frame.height = height;
    frame.transparent = transparent;
    frame.buffer = Cow::Borrowed(buffer);
    m.inner.write_frame(&frame)
}

/// Calls `Encoder::into_inner`, which writes the trailer and hands back the
/// sink. Nothing but writing can fail there, and writing to a vector does not.
#[verifier::external_body]
fn muxer_finish(m: Muxer) -> (r: Result<Vec<u8>, EncodingError>)
    ensures
        r is Ok,
        r matches Ok(bytes) ==> bytes@ == muxer_bytes(m) + trailer_block(),
{
    m.inner.into_inner().map_err(EncodingError::from)
}

/// The first `count` frames of an animation as they stand in its GIF stream.
pub open spec fn frame_blocks(gif: Gif, count: nat) -> Seq<u8>
    decreases count,
{
    if count == 0 {
        Seq::empty()
    } else {
        frame_blocks(gif, (count - 1) as nat) + frame_block(
            gif.delay / 10,
            gif.width,
            gif.height,
            gif.transparency,
            gif.images@[count - 1]@,
        )
    }
}

/// The GIF stream of an animation: the screen with the colour table, the
/// block that makes it repeat forever, every frame, and the trailer.
pub open spec fn gif_stream(gif: Gif) -> Seq<u8> {
    screen_block(gif.width, gif.height, gif.palette@) + repeat_block(None) + frame_blocks(
        gif,
        gif.images@.len(),
    ) + trailer_block()
}

/// Appends the encoded stream to `out`, or reports why there is none.
pub fn finish_write(out: &mut Vec<u8>, encoded: Result<Vec<u8>, EncodingError>) -> (r: Result<(), Error>)
    ensures
        match encoded {
            Ok(bytes) => r is Ok && final(out)@ == old(out)@ + bytes@,
            Err(e) => r matches Err(Error::ImageWrite(cause)) && cause == e && final(out)@ == old(out)@,
        },
{
    match encoded {
        Ok(bytes) => {
            let mut bytes = bytes;
            out.append(&mut bytes);
            Ok(())
        },
        Err(e) => Err(Error::ImageWrite(e)),
    }
}

impl Gif {
    /// Whether a frame without area holds no slots. An animation can only be
    /// encoded if this holds.
    pub open spec fn is_encodable(&self) -> bool {
        (self.width > 0 && self.height > 0) || forall|i: int|
            0 <= i < self.images@.len() ==> (#[trigger] self.images@[i])@.len() == 0
    }

    /// Tests `is_encodable`.
    pub fn can_encode(&self) -> (b: bool)
        ensures
            b == self.is_encodable(),
    {
        if self.width > 0 && self.height > 0 {
            return true;
        }
        let mut i: usize = 0;
        while i < self.images.len()
            invariant
                i <= self.images@.len(),
                !(self.width > 0 && self.height > 0),
                forall|j: int| 0 <= j < i ==> (#[trigger] self.images@[j])@.len() == 0,
            decreases self.images.len() - i,
        {
            if self.images[i].len() != 0 {
                assert(self.images@[i as int]@.len() != 0);
                return false;
            }
            i += 1;
        }
        true
    }

    /// Whether the animation fits the format: the colour table has at most
    /// 256 colours, every frame has a slot for each of its positions, and if
    /// there are frames the colour table has a colour.
    pub open spec fn fits_format(&self) -> bool {
        &&& self.palette@.len() / 3 <= 256
        &&& self.images@.len() > 0 ==> self.palette@.len() >= 3
        &&& forall|i: int|
            0 <= i < self.images@.len() ==> (#[trigger] self.images@[i])@.len() >= self.width
                * self.height
    }

    /// Encodes the animation as a GIF stream that repeats forever. Each frame
    /// is shown for `delay / 10` hundredths of a second.
    ///
    /// An animation that does not fit the format is refused. One that fits
    /// and has no frames is always encoded; with frames the encoder may
    /// still fail for want of memory.
    pub fn encode(&self) -> (r: Result<Vec<u8>, EncodingError>)
        requires
            self.is_encodable(),
        ensures
            r matches Ok(bytes) ==> bytes@ == gif_stream(*self),
            r is Ok ==> self.fits_format(),
            self.fits_format() && self.images@.len() == 0 ==> r is Ok,
    {
        let mut muxer = match muxer_start(Vec::new(), self.width, self.height, &self.palette) {
            Ok(m) => m,
            Err(e) => { return Err(e); },
        };
        match muxer_repeat(&mut muxer, None) {
            Ok(_) => {},
            Err(e) => { return Err(e); },
        }
        let mut i: usize = 0;
        while i < self.images.len()
            invariant
                i <= self.images@.len(),
                self.is_encodable(),
                muxer_bytes(muxer) == screen_block(self.width, self.height, self.palette@)
                    + repeat_block(None) + frame_blocks(*self, i as nat),
                self.palette@.len() / 3 <= 256,
                muxer_has_palette(muxer) == (self.palette@.len() >= 3),
                i > 0 ==> self.palette@.len() >= 3,
                forall|j: int|
                    0 <= j < i ==> (#[trigger] self.images@[j])@.len() >= self.width * self.height,
            decreases self.images.len() - i,
        {
            let ghost before = muxer_bytes(muxer);
            match muxer_frame(
                &mut muxer,
                self.delay / 10,
                self.width,
                self.height,
                self.transparency,
                &self.images[i],
            ) {
                Ok(_) => {},
                Err(e) => { return Err(e); },
            }
            proof {
                assert(muxer_bytes(muxer) =~= screen_block(self.width, self.height, self.palette@)
                    + repeat_block(None) + frame_blocks(*self, (i + 1) as nat));
            }
            i += 1;
        }
        muxer_finish(muxer)
    }

    /// Writes the animation to `out` as a GIF stream. If the encoder refuses
    /// the animation, `out` stays as it was. It refuses and encodes what
    /// `encode` does.
    pub fn write(&self, out: &mut Vec<u8>) -> (r: Result<(), Error>)
        requires
            self.is_encodable(),
        ensures
            match r {
                Ok(_) => final(out)@ == old(out)@ + gif_stream(*self),
                Err(e) => e is ImageWrite && final(out)@ == old(out)@,
            },
            r is Ok ==> self.fits_format(),
            self.fits_format() && self.images@.len() == 0 ==> r is Ok,
    {
        finish_write(out, self.encode())
    }
}

} // verus!
