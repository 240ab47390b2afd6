//! The trained strategy: a NeuQuant network learns a palette from sampled
//! pixels and then finds the slot of every colour.

use vstd::prelude::*;
use crate::color::Color;
use crate::image::{Frame, Image, all_pixels};
use crate::table::{ColorTable, table_entries};
use color_quant::NeuQuant;
use rayon::iter::{IntoParallelRefIterator, ParallelIterator};

verus! {

/// The share of the samples that the network learns from: one in this many.
pub const SAMPLE_FACTOR: i32 = 10;

/// The number of colours the network is trained for.
pub const NETWORK_COLORS: usize = 256;

/// `color_quant::NeuQuant`: a trained network.
#[verifier::external_type_specification]
#[verifier::external_body]
pub struct ExNeuQuant(NeuQuant);

/// What a trained network holds: its colour map, four bytes (red, green, blue,
/// alpha) for each entry.
pub uninterp spec fn network_colors(net: NeuQuant) -> Seq<u8>;

/// The colour map that training on `pixels` ends with.
pub uninterp spec fn trained_colors(samplefac: i32, colors: usize, pixels: Seq<u8>) -> Seq<u8>;

/// The entry that a network with the colour map `colors` finds for `pixel`.
pub uninterp spec fn network_index(colors: Seq<u8>, pixel: Seq<u8>) -> usize;

/// Calls `NeuQuant::new`, which builds a network of `colors` entries and
/// trains it on `pixels` (RGBA, four bytes each). Training is integer and
/// plain floating-point arithmetic on the arguments alone; the resulting
/// colour map has four bytes for each of the `colors` entries.
#[verifier::external_body]
fn train_network(samplefac: i32, colors: usize, pixels: &Vec<u8>) -> (net: NeuQuant)
    requires
        1 <= samplefac <= 30,
        64 <= colors <= 256,
    ensures
        network_colors(net) == trained_colors(samplefac, colors, pixels@),
        network_colors(net).len() == 4 * colors,
{
    NeuQuant::new(samplefac, colors, pixels)
}

/// Calls `NeuQuant::index_of` with the colour's four bytes. The search reads
/// the colour map and the pixel only, and ends on an entry of the map.
#[verifier::external_body]
fn network_index_of(net: &NeuQuant, c: Color) -> (slot: usize)
    ensures
        slot == network_index(network_colors(*net), c.bytes()),
        4 * slot < network_colors(*net).len(),
{
    net.index_of(&[c.r, c.g, c.b, c.a])
}

/// Calls `NeuQuant::color_map_rgb`: the red, green and blue byte of every
/// entry of the colour map, in the order of the entries.
#[verifier::external_body]
fn network_palette(net: &NeuQuant) -> (palette: Vec<u8>)
    ensures
        palette@ == without_alpha(network_colors(*net)),
{
    net.color_map_rgb()
}

/// A colour map of four bytes per entry, without the fourth byte of each entry.
pub open spec fn without_alpha(colors: Seq<u8>) -> Seq<u8> {
    Seq::new((colors.len() / 4 * 3) as nat, |i: int| colors[i / 3 * 4 + i % 3])
}

/// What is sampled for a pixel: transparent black if the pixel is fully
/// transparent, else its colour made opaque.
pub open spec fn normalized(c: Color) -> Color {
    if c.a == 0 {
        Color { r: 0, g: 0, b: 0, a: 0 }
    } else {
        Color { r: c.r, g: c.g, b: c.b, a: 255 }
    }
}

/// Whether the pixel in column `x` of row `y` is sampled at the given stride.
pub open spec fn is_sampled(stride: nat, x: nat, y: nat) -> bool {
    x % stride == 0 && y % stride == 0
}

/// The samples of the first `cols` pixels of row `y`.
pub open spec fn sample_row(frame: Frame, stride: nat, y: nat, cols: nat) -> Seq<u8>
    decreases cols,
{
    if cols == 0 {
        Seq::empty()
    } else {
        let x = (cols - 1) as nat;
        let before = sample_row(frame, stride, y, x);
        if is_sampled(stride, x, y) {
            before + normalized(frame.pixels[(y * frame.width + x) as int]).bytes()
        } else {
            before
        }
    }
}

/// The samples of the first `rows` rows.
pub open spec fn sample_rows(frame: Frame, stride: nat, rows: nat) -> Seq<u8>
    decreases rows,
{
    if rows == 0 {
        Seq::empty()
    } else {
        let y = (rows - 1) as nat;
        sample_rows(frame, stride, y) + sample_row(frame, stride, y, frame.width as nat)
    }
}

/// The samples of all frames, one frame after the other.
pub open spec fn sample_frames(frames: Seq<Image>, stride: nat) -> Seq<u8>
    decreases frames.len(),
{
    if frames.len() == 0 {
        Seq::empty()
    } else {
        sample_frames(frames.drop_last(), stride) + sample_rows(
            frames.last()@,
            stride,
            frames.last()@.height as nat,
        )
    }
}

/// The samples of one frame: of the pixels whose row and column are both
/// multiples of `sample_rate`, each normalized, four bytes per pixel.
pub fn sample_frame(img: &Image, sample_rate: u32) -> (samples: Vec<u8>)
    requires
        sample_rate >= 1,
        img.wf(),
    ensures
        samples@ == sample_rows(img@, sample_rate as nat, img@.height as nat),
{
    let mut samples: Vec<u8> = Vec::new();
    let px = img.pixels();
    let total: usize = px.len();
    let width: u32 = img.width();
    let height: u32 = img.height();
    let ghost frame = img@;
    let mut p: usize = 0;
    let mut y: u32 = 0;
    while y < height
        invariant
            sample_rate >= 1,
            y <= height,
            width == frame.width,
            height == frame.height,
            px@ == frame.pixels,
            px@.len() == frame.width * frame.height,
            px@.len() == total,
            p == y * width,
            samples@ == sample_rows(frame, sample_rate as nat, y as nat),
        decreases height - y,
    {
        let ghost row_base = samples@;
        let mut x: u32 = 0;
        while x < width
            invariant
                sample_rate >= 1,
                y < height,
                x <= width,
                width == frame.width,
                height == frame.height,
                px@ == frame.pixels,
                px@.len() == frame.width * frame.height,
                px@.len() == total,
                p == y * width + x,
                samples@ == row_base + sample_row(frame, sample_rate as nat, y as nat, x as nat),
            decreases width - x,
        {
            proof {
                assert(y * frame.width + x < frame.width * frame.height) by (nonlinear_arith)
                    requires
                        0 <= x < frame.width,
                        0 <= y < frame.height,
                ;
            }
            if x % sample_rate == 0 && y % sample_rate == 0 {
                let c = px[p];
                if c.a == 0 {
                    samples.push(0);
                    samples.push(0);
                    samples.push(0);
                    samples.push(0);
                } else {
                    samples.push(c.r);
                    samples.push(c.g);
                    samples.push(c.b);
                    samples.push(255);
                }
                proof {
                    assert(samples@ =~= row_base + (sample_row(frame, sample_rate as nat, y as nat, x as nat)
                        + normalized(c).bytes()));
                }
            }
            p += 1;
            x += 1;
        }
        proof {
            assert(y * width + width == (y + 1) * width) by (nonlinear_arith);
        }
        y += 1;
    }
    samples
}

/// Calls rayon's `par_iter`, `map` and `collect` on the frames: every frame
/// is sampled by `sample_frame`, several at a time, and the results stand in
/// the order of the frames.
#[verifier::external_body]
fn sample_each_frame(imgs: &[Image], sample_rate: u32) -> (parts: Vec<Vec<u8>>)
    requires
        sample_rate >= 1,
        forall|f: int| 0 <= f < imgs@.len() ==> (#[trigger] imgs@[f]).wf(),
    ensures
        parts@.len() == imgs@.len(),
        forall|f: int|
            0 <= f < imgs@.len() ==> (#[trigger] parts@[f])@ == sample_rows(
                imgs@[f]@,
                sample_rate as nat,
                imgs@[f]@.height as nat,
            ),
{
    imgs.par_iter().map(|img| sample_frame(img, sample_rate)).collect()
}

/// Collects the training samples: of every frame the pixels whose row and
/// column are both multiples of `sample_rate`, each normalized, four bytes
/// per pixel, one frame after the other.
pub fn sample_pixels(imgs: &[Image], sample_rate: u32) -> (samples: Vec<u8>)
    requires
        sample_rate >= 1,
        forall|f: int| 0 <= f < imgs@.len() ==> (#[trigger] imgs@[f]).wf(),
    ensures
        samples@ == sample_frames(imgs@, sample_rate as nat),
{
    let mut parts = sample_each_frame(imgs, sample_rate);
    let mut samples: Vec<u8> = Vec::new();
    let mut f: usize = 0;
    proof {
        assert(imgs@.take(0) =~= Seq::<Image>::empty());
    }
    while f < parts.len()
        invariant
            f <= parts@.len(),
            parts@.len() == imgs@.len(),
            forall|g: int|
                f <= g < imgs@.len() ==> (#[trigger] parts@[g])@ == sample_rows(
                    imgs@[g]@,
                    sample_rate as nat,
                    imgs@[g]@.height as nat,
                ),
            samples@ == sample_frames(imgs@.take(f as int), sample_rate as nat),
        decreases parts.len() - f,
    {
        proof {
            assert(imgs@.take(f + 1).drop_last() =~= imgs@.take(f as int));
            assert(imgs@.take(f + 1).last() == imgs@[f as int]);
        }
        let mut part: Vec<u8> = Vec::new();
        std::mem::swap(&mut part, &mut parts[f]);
        samples.append(&mut part);
        f += 1;
    }
    proof {
        assert(imgs@.take(imgs@.len() as int) =~= imgs@);
    }
    samples
}

/// The transparent slot after the pixels `px` have been mapped: the slot of
/// the last fully transparent pixel, if there is any.
pub open spec fn transparent_slot(px: Seq<Color>, colors: Seq<u8>) -> Option<u8>
    decreases px.len(),
{
    if px.len() == 0 {
        None
    } else if px.last().a == 0 {
        Some(network_index(colors, px.last().bytes()) as u8)
    } else {
        transparent_slot(px.drop_last(), colors)
    }
}

/// The transparent slot once one more pixel has been mapped: the slot of that
/// pixel if it is fully transparent, else what it was.
pub fn note_transparency(previous: Option<u8>, c: Color, slot: u8) -> (r: Option<u8>)
    ensures
        r == if c.a == 0 { Some(slot) } else { previous },
{
    if c.a == 0 {
        Some(slot)
    } else {
        previous
    }
}

/// Trains a network on samples of the frames and maps every pixel of every
/// frame to the slot the network finds for its colour. The result is the
/// network's colour table, one array of slots per frame, and the transparent
/// slot.
pub fn neuquant_palettize(imgs: &[Image], sample_rate: u32) -> (r: (Vec<u8>, Vec<Vec<u8>>, Option<u8>))
    requires
        sample_rate >= 1,
        forall|f: int| 0 <= f < imgs@.len() ==> (#[trigger] imgs@[f]).wf(),
    ensures
        ({
            let colors = trained_colors(
                SAMPLE_FACTOR,
                NETWORK_COLORS,
                sample_frames(imgs@, sample_rate as nat),
            );
            &&& r.0@ == without_alpha(colors)
            &&& r.0@.len() == 3 * NETWORK_COLORS
            &&& is_network_indexing(imgs@, colors, r.1@)
            &&& r.2 == transparent_slot(all_pixels(imgs@), colors)
        }),
{
    let samples = sample_pixels(imgs, sample_rate);
    let net = train_network(SAMPLE_FACTOR, NETWORK_COLORS, &samples);
    let ghost colors = network_colors(net);
    let mut transparency: Option<u8> = None;
    let mut cache = ColorTable::new();
    let mut images: Vec<Vec<u8>> = Vec::new();
    let ghost mut seen: Seq<Color> = Seq::empty();
    let mut f: usize = 0;
    proof {
        assert(imgs@.take(0) =~= Seq::<Image>::empty());
    }
    while f < imgs.len()
        invariant
            f <= imgs.len(),
            colors == network_colors(net),
            colors.len() == 4 * NETWORK_COLORS,
            seen == all_pixels(imgs@.take(f as int)),
            caches(seen, colors, table_entries(cache)),
            transparency == transparent_slot(seen, colors),
            images@.len() == f,
            forall|g: int| 0 <= g < f ==> (#[trigger] images@[g])@.len() == imgs@[g]@.pixels.len(),
            forall|g: int, p: int|
                0 <= g < f && 0 <= p < imgs@[g]@.pixels.len() ==> #[trigger] images@[g]@[p]
                    == network_index(colors, imgs@[g]@.pixels[p].bytes()) as u8,
        decreases imgs.len() - f,
    {
        let px = imgs[f].pixels();
        let ghost base = seen;
        let mut slots: Vec<u8> = Vec::new();
        let mut p: usize = 0;
        proof {
            assert(base + px@.take(0) =~= base);
        }
        while p < px.len()
            invariant
                f < imgs.len(),
                p <= px.len(),
                px@ == imgs@[f as int]@.pixels,
                colors == network_colors(net),
                colors.len() == 4 * NETWORK_COLORS,
                seen == base + px@.take(p as int),
                caches(seen, colors, table_entries(cache)),
                transparency == transparent_slot(seen, colors),
                slots@.len() == p,
                forall|q: int| 0 <= q < p ==> #[trigger] slots@[q] == network_index(colors, px@[q].bytes()) as u8,
            decreases px.len() - p,
        {
            let c = px[p];
            let ghost next = seen.push(c);
            proof {
                assert(next.drop_last() =~= seen);
                assert(next =~= base + px@.take(p + 1));
            }
            let slot: u8 = match cache.get(c) {
                Some(v) => v as u8,
                None => {
                    let found: usize = network_index_of(&net, c);
                    cache.insert(c, found);
                    found as u8
                },
            };
            transparency = note_transparency(transparency, c, slot);
            proof {
                assert forall|d: Color| #[trigger] table_entries(cache).contains_key(d) <==> next.contains(d) by {
                    if seen.contains(d) {
                        let k = choose|k: int| 0 <= k < seen.len() && seen[k] == d;
                        assert(next[k] == d);
                    }
                    if next.contains(d) && d != c {
                        let k = choose|k: int| 0 <= k < next.len() && next[k] == d;
                        assert(seen[k] == d);
                    }
                    assert(next[seen.len() as int] == c);
                }
                seen = next;
            }
            slots.push(slot);
            p += 1;
        }
        proof {
            assert(px@.take(px.len() as int) =~= px@);
            assert(imgs@.take(f + 1).drop_last() =~= imgs@.take(f as int));
            assert(imgs@.take(f + 1).last() == imgs@[f as int]);
        }
        images.push(slots);
        f += 1;
    }
    proof {
        assert(imgs@.take(imgs.len() as int) =~= imgs@);
    }
    (network_palette(&net), images, transparency)
}

/// Whether `entries` holds, for exactly the colours of `seen`, the slot the
/// network finds.
pub open spec fn caches(seen: Seq<Color>, colors: Seq<u8>, entries: Map<Color, usize>) -> bool {
    &&& forall|c: Color| #[trigger] entries.contains_key(c) <==> seen.contains(c)
    &&& forall|c: Color| #[trigger]
        entries.contains_key(c) ==> entries[c] == network_index(colors, c.bytes()) && entries[c]
            < NETWORK_COLORS
}

/// Whether `images` hold, for every pixel of `frames`, the slot that a
/// network with the colour map `colors` finds for it.
pub open spec fn is_network_indexing(frames: Seq<Image>, colors: Seq<u8>, images: Seq<Vec<u8>>) -> bool {
    &&& images.len() == frames.len()
    &&& forall|f: int| 0 <= f < frames.len() ==> (#[trigger] images[f])@.len() == frames[f]@.pixels.len()
    &&& forall|f: int, p: int|
        0 <= f < frames.len() && 0 <= p < frames[f]@.pixels.len() ==> #[trigger] images[f]@[p]
            == network_index(colors, frames[f]@.pixels[p].bytes()) as u8
}

} // verus!
