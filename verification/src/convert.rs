//! Converting frames into an animation.

use vstd::prelude::*;
use crate::animation::Gif;
use crate::color::{distinct_count, lemma_rank_below_count, rank};
use crate::error::Error;
use crate::image::{Image, all_pixels};
use crate::naive::{MAX_COLORS, frequency_palette, is_frequency_indexing, lemma_all_pixels_contains, naive_palettize};
use crate::neuquant::{
    NETWORK_COLORS,
    SAMPLE_FACTOR,
    is_network_indexing,
    neuquant_palettize,
    sample_frames,
    trained_colors,
    transparent_slot,
    without_alpha,
};

verus! {

/// How the palette is chosen.
///
/// `Naive` counts how often each colour occurs, makes the 256 most frequent
/// colours the palette, and gives every other colour the slot of the palette
/// colour closest to it.
///
/// `NeuQuant` trains a NeuQuant network and asks it for the slot of each
/// colour. Its number is the sampling stride: for a stride of N the network
/// learns from the pixels in every Nth column of every Nth row, so 1 uses
/// every pixel and 2 a quarter of them.
#[derive(Debug, Eq, PartialEq, Copy, Clone, Structural)]
pub enum Quantizer {
    Naive,
    NeuQuant(u32),
}

/// Width and height of a frame.
pub open spec fn size_of(img: Image) -> (u32, u32) {
    (img@.width, img@.height)
}

/// Whether all frames have the size of the first one.
pub open spec fn same_sizes(frames: Seq<Image>) -> bool {
    forall|i: int| 0 <= i < frames.len() ==> size_of(#[trigger] frames[i]) == size_of(frames[0])
}

/// Whether frame `i` is the first whose size differs from that of the first frame.
pub open spec fn is_first_mismatch(frames: Seq<Image>, i: int) -> bool {
    &&& 0 <= i < frames.len()
    &&& size_of(frames[i]) != size_of(frames[0])
    &&& forall|j: int| 0 <= j < i ==> size_of(#[trigger] frames[j]) == size_of(frames[0])
}

/// Whether `gif` is the animation of `frames` at `fps` frames per second with
/// the palette chosen by `quantizer`.
///
/// Width and height are those of the frames, reduced modulo 65536, and the
/// delay is `1000 / fps` milliseconds. There is one array of slots per frame,
/// with one slot per pixel, and the colour table has at most 256 colours.
pub open spec fn is_conversion(frames: Seq<Image>, fps: usize, quantizer: Quantizer, gif: Gif) -> bool {
    &&& gif.width == frames[0]@.width % 65536
    &&& gif.height == frames[0]@.height % 65536
    &&& gif.delay == 1000int / (fps as int)
    &&& gif.palette@.len() <= 3 * MAX_COLORS
    &&& gif.images@.len() == frames.len()
    &&& forall|f: int|
        0 <= f < frames.len() ==> (#[trigger] gif.images@[f])@.len() == frames[0]@.width
            * frames[0]@.height
    &&& match quantizer {
        Quantizer::Naive => {
            &&& gif.palette@ == frequency_palette(all_pixels(frames))
            &&& is_frequency_indexing(frames, gif.images@)
            &&& gif.transparency is None
        },
        Quantizer::NeuQuant(stride) => {
            let colors = trained_colors(SAMPLE_FACTOR, NETWORK_COLORS, sample_frames(frames, stride as nat));
            &&& gif.palette@ == without_alpha(colors)
            &&& is_network_indexing(frames, colors, gif.images@)
            &&& gif.transparency == transparent_slot(all_pixels(frames), colors)
        },
    }
}

/// Converts a sequence of frames into an animation at `fps` frames per second.
///
/// Without frames the result is `Error::NoImages`. If a frame differs in size
/// from the first one, the result is `Error::Mismatch` with the size of the
/// first frame and the size of the first frame that differs. Both hold for
/// any frame rate and stride. Otherwise the frame rate and the stride must
/// be positive, and the result is the animation that `is_conversion`
/// describes.
pub fn engiffen(imgs: &[Image], fps: usize, quantizer: Quantizer) -> (r: Result<Gif, Error>)
    requires
        imgs@.len() > 0 && same_sizes(imgs@) ==> fps > 0,
        imgs@.len() > 0 && same_sizes(imgs@) ==> (quantizer matches Quantizer::NeuQuant(stride) ==> stride
            >= 1),
        forall|f: int| 0 <= f < imgs@.len() ==> (#[trigger] imgs@[f]).wf(),
    ensures
        imgs@.len() == 0 ==> r matches Err(Error::NoImages),
        forall|i: int|
            is_first_mismatch(imgs@, i) ==> (r matches Err(Error::Mismatch(first, other)) && first
                == size_of(imgs@[0]) && other == size_of(imgs@[i])),
        imgs@.len() > 0 && same_sizes(imgs@) ==> (r matches Ok(gif) && is_conversion(
            imgs@,
            fps,
            quantizer,
            gif,
        )),
{
    if imgs.len() == 0 {
        return Err(Error::NoImages);
    }
    let width: u32 = imgs[0].width();
    let height: u32 = imgs[0].height();
    let mut i: usize = 0;
    while i < imgs.len()
        invariant
            i <= imgs.len(),
            imgs@.len() > 0,
            (width, height) == size_of(imgs@[0]),
            forall|j: int| 0 <= j < i ==> size_of(#[trigger] imgs@[j]) == size_of(imgs@[0]),
        decreases imgs.len() - i,
    {
        let other_width: u32 = imgs[i].width();
        let other_height: u32 = imgs[i].height();
        if other_width != width || other_height != height {
            proof {
                assert(is_first_mismatch(imgs@, i as int));
                assert forall|k: int| is_first_mismatch(imgs@, k) implies k == i by {
                    if k < i {
                        assert(size_of(imgs@[k]) == size_of(imgs@[0]));
                    }
                    if i < k {
                        assert(size_of(imgs@[i as int]) == size_of(imgs@[0]));
                    }
                }
                assert(!same_sizes(imgs@));
            }
            return Err(Error::Mismatch((width, height), (other_width, other_height)));
        }
        i += 1;
    }
    proof {
        assert(same_sizes(imgs@));
        assert forall|k: int| !is_first_mismatch(imgs@, k) by {
            if 0 <= k < imgs@.len() {
                assert(size_of(imgs@[k]) == size_of(imgs@[0]));
            }
        }
        assert forall|f: int| 0 <= f < imgs@.len() implies (#[trigger] imgs@[f])@.pixels.len() == imgs@[0]@.width
            * imgs@[0]@.height by {
            assert(imgs@[f].wf());
            assert(size_of(imgs@[f]) == size_of(imgs@[0]));
        }
    }
    let (palette, images, transparency) = match quantizer {
        Quantizer::NeuQuant(sample_rate) => neuquant_palettize(imgs, sample_rate),
        Quantizer::Naive => naive_palettize(imgs),
    };
    proof {
        assert(palette@.len() <= 3 * MAX_COLORS);
        assert(images@.len() == imgs@.len());
        assert forall|f: int| 0 <= f < imgs@.len() implies (#[trigger] images@[f])@.len() == imgs@[0]@.width
            * imgs@[0]@.height by {
            assert(imgs@[f]@.pixels.len() == imgs@[0]@.width * imgs@[0]@.height);
        }
    }
    let delay: u16 = (1000 / fps) as u16;
    let gif = Gif {
        palette,
        transparency,
        width: (width % 65536) as u16,
        height: (height % 65536) as u16,
        images,
        delay,
    };
    Ok(gif)
}

/// Among frames that do not all have the size of the first one, a frame
/// before `j` or frame `j` itself is the first that differs.
proof fn lemma_first_mismatch_before(frames: Seq<Image>, j: int)
    requires
        0 <= j < frames.len(),
        size_of(frames[j]) != size_of(frames[0]),
    ensures
        exists|i: int| is_first_mismatch(frames, i),
    decreases j,
{
    if exists|k: int| 0 <= k < j && size_of(#[trigger] frames[k]) != size_of(frames[0]) {
        let k = choose|k: int| 0 <= k < j && size_of(#[trigger] frames[k]) != size_of(frames[0]);
        lemma_first_mismatch_before(frames, k);
    } else {
        assert(is_first_mismatch(frames, j));
    }
}

/// Frames either all have the size of the first one, or one of them is the
/// first that differs, and only one: so `engiffen` says for every sequence of
/// frames what it returns.
pub proof fn lemma_sizes_match_or_one_is_first(frames: Seq<Image>)
    ensures
        same_sizes(frames) <==> !exists|i: int| is_first_mismatch(frames, i),
        forall|i: int, j: int| is_first_mismatch(frames, i) && is_first_mismatch(frames, j) ==> i == j,
{
    if !same_sizes(frames) {
        let j = choose|j: int| 0 <= j < frames.len() && size_of(#[trigger] frames[j]) != size_of(frames[0]);
        lemma_first_mismatch_before(frames, j);
    }
    assert forall|i: int, j: int| is_first_mismatch(frames, i) && is_first_mismatch(frames, j) implies i == j by {
        if i < j {
            assert(size_of(frames[i]) == size_of(frames[0]));
        }
        if j < i {
            assert(size_of(frames[j]) == size_of(frames[0]));
        }
    }
}

/// Converting the same frames twice by frequency gives the same animation:
/// the colour table is the same, and so is the slot of every pixel whose
/// colour is in the table. With at most 256 different colours that is every
/// pixel.
pub proof fn lemma_naive_conversion_repeats(frames: Seq<Image>, fps: usize, a: Gif, b: Gif)
    requires
        is_conversion(frames, fps, Quantizer::Naive, a),
        is_conversion(frames, fps, Quantizer::Naive, b),
    ensures
        a.palette@ == b.palette@,
        a.transparency == b.transparency,
        a.width == b.width,
        a.height == b.height,
        a.delay == b.delay,
        a.images@.len() == b.images@.len(),
        forall|f: int, p: int|
            0 <= f < frames.len() && 0 <= p < frames[f]@.pixels.len() && rank(
                all_pixels(frames),
                frames[f]@.pixels[p],
            ) < MAX_COLORS ==> #[trigger] a.images@[f]@[p] == b.images@[f]@[p],
        distinct_count(all_pixels(frames)) <= MAX_COLORS ==> a.images.deep_view() == b.images.deep_view(),
{
    let px = all_pixels(frames);
    if distinct_count(px) <= MAX_COLORS {
        assert forall|f: int| 0 <= f < frames.len() implies #[trigger] a.images@[f]@ == b.images@[f]@ by {
            assert forall|p: int| 0 <= p < frames[f]@.pixels.len() implies a.images@[f]@[p] == b.images@[f]@[p] by {
                lemma_all_pixels_contains(frames, f, p);
                lemma_rank_below_count(px, frames[f]@.pixels[p]);
            }
            assert(a.images@[f]@.len() == frames[f]@.pixels.len());
            assert(b.images@[f]@.len() == frames[f]@.pixels.len());
            assert(a.images@[f]@ =~= b.images@[f]@);
        }
        assert(a.images.deep_view() =~= b.images.deep_view());
    }
}

/// An animation made from frames that are at most 65535 pixels wide and high
/// can be encoded.
pub proof fn lemma_conversion_is_encodable(frames: Seq<Image>, fps: usize, quantizer: Quantizer, gif: Gif)
    requires
        frames.len() > 0,
        is_conversion(frames, fps, quantizer, gif),
        frames[0]@.width < 65536,
        frames[0]@.height < 65536,
    ensures
        gif.is_encodable(),
{
    if !(gif.width > 0 && gif.height > 0) {
        assert forall|i: int| 0 <= i < gif.images@.len() implies (#[trigger] gif.images@[i])@.len() == 0 by {
            assert(frames[0]@.width * frames[0]@.height == 0) by (nonlinear_arith)
                requires
                    frames[0]@.width == 0 || frames[0]@.height == 0,
            ;
        }
    }
}

} // verus!
