//! The frequency strategy: the most frequent colours become the palette, and
//! every other colour is given the slot of the palette colour closest to it.

use vstd::prelude::*;
use vstd::pervasive::unreached;
use crate::color::{Color, rank, distinct_count, color_of_rank};
use crate::image::{Image, all_pixels};
use crate::table::{ColorTable, table_entries};
use crate::tally::{tally_colors, Tally};
use crate::order::{frequency_order, is_frequency_order, lemma_rank_in_order, lemma_distinct_count, lemma_color_of_rank};
use lab::Lab;
use rayon::iter::{IntoParallelRefIterator, ParallelIterator};

verus! {

/// The largest number of colours a palette can hold.
pub const MAX_COLORS: usize = 256;

/// `lab::Lab`: a colour in CIE Lab space. What it holds is floating point and
/// is not looked into.
#[verifier::external_type_specification]
#[verifier::external_body]
pub struct ExLab(Lab);

/// Calls `Lab::from_rgba` with the colour's four bytes: the colour in CIE Lab
/// space. Nothing is claimed of the value: it is computed in floating point
/// and may differ between machines.
#[verifier::external_body]
fn lab_of(c: Color) -> Lab {
    Lab::from_rgba(&[c.r, c.g, c.b, c.a])
}

/// Calls `Lab::squared_distance` and hands the distance back as its bit
/// pattern (`f32::to_bits`). The distance is a sum of squares, and of two such
/// numbers the smaller one has the smaller bit pattern.
#[verifier::external_body]
fn lab_distance_bits(from: &Lab, to: &Lab) -> u32 {
    from.squared_distance(to).to_bits()
}

/// Whether `at` is the first position of `distances` that holds their minimum.
pub open spec fn is_first_minimum(distances: Seq<u32>, at: int) -> bool {
    &&& 0 <= at < distances.len()
    &&& forall|i: int| 0 <= i < distances.len() ==> distances[at] <= #[trigger] distances[i]
    &&& forall|i: int| 0 <= i < at ==> distances[at] < #[trigger] distances[i]
}

/// The position of the smallest distance; of several equal ones, the first.
/// Without any distance the answer is 0.
pub fn closest_index(distances: &Vec<u32>) -> (at: usize)
    ensures
        distances@.len() == 0 ==> at == 0,
        distances@.len() > 0 ==> is_first_minimum(distances@, at as int),
{
    let mut best: usize = 0;
    let mut i: usize = 1;
    while i < distances.len()
        invariant
            1 <= i,
            distances@.len() > 0 ==> i <= distances@.len() && is_first_minimum(distances@.take(i as int), best as int),
            distances@.len() == 0 ==> best == 0,
        decreases distances.len() - i,
    {
        if distances[i] < distances[best] {
            best = i;
        }
        i += 1;
    }
    proof {
        if distances@.len() > 0 {
            assert(distances@.take(i as int) =~= distances@);
        }
    }
    best
}

/// The distances from the colour `to` to each colour of `palette`, in the
/// order of the palette. Each is the squared distance in CIE Lab space as a
/// bit pattern.
pub fn lab_distances(palette: &Vec<Lab>, to: &Lab) -> (distances: Vec<u32>)
    ensures
        distances@.len() == palette@.len(),
{
    let mut distances: Vec<u32> = Vec::new();
    let mut i: usize = 0;
    while i < palette.len()
        invariant
            i <= palette.len(),
            distances@.len() == i,
        decreases palette.len() - i,
    {
        distances.push(lab_distance_bits(&palette[i], to));
        i += 1;
    }
    distances
}

/// The slot of the palette colour that is closest to the colour `to`; of
/// several equally close ones, the first. Closeness is the squared distance
/// in CIE Lab space, and `palette` holds the palette colours in that space.
fn nearest_lab(palette: &Vec<Lab>, to: &Lab) -> (slot: usize)
    ensures
        palette@.len() == 0 ==> slot == 0,
        palette@.len() > 0 ==> slot < palette@.len(),
{
    closest_index(&lab_distances(palette, to))
}

/// The slot of the palette colour that is closest to `c`; of several equally
/// close ones, the first. Closeness is the squared distance in CIE Lab space.
pub fn nearest_in_palette(palette: &Vec<Color>, c: Color) -> (slot: usize)
    ensures
        palette@.len() == 0 ==> slot == 0,
        palette@.len() > 0 ==> slot < palette@.len(),
{
    let mut labs: Vec<Lab> = Vec::new();
    let mut i: usize = 0;
    while i < palette.len()
        invariant
            i <= palette.len(),
            labs@.len() == i,
        decreases palette.len() - i,
    {
        labs.push(lab_of(palette[i]));
        i += 1;
    }
    nearest_lab(&labs, &lab_of(c))
}

/// How many colours the palette of the stream `px` holds.
pub open spec fn palette_size(px: Seq<Color>) -> nat {
    if distinct_count(px) <= MAX_COLORS {
        distinct_count(px)
    } else {
        MAX_COLORS as nat
    }
}

/// The colour table of the stream `px`: three bytes (red, green, blue) for
/// each of its `palette_size(px)` highest ranked colours, in the order of
/// their ranks.
pub open spec fn frequency_palette(px: Seq<Color>) -> Seq<u8> {
    Seq::new(
        3 * palette_size(px),
        |i: int|
            {
                let c = color_of_rank(px, (i / 3) as nat);
                if i % 3 == 0 {
                    c.r
                } else if i % 3 == 1 {
                    c.g
                } else {
                    c.b
                }
            },
    )
}

/// Whether `images` index the pixels of `frames` into the palette of all their
/// pixels: a colour of the palette gets its own slot, which is its rank; any
/// other colour gets some slot of the palette, the same wherever it occurs.
pub open spec fn is_frequency_indexing(frames: Seq<Image>, images: Seq<Vec<u8>>) -> bool {
    let px = all_pixels(frames);
    &&& images.len() == frames.len()
    &&& forall|f: int| 0 <= f < frames.len() ==> (#[trigger] images[f])@.len() == frames[f]@.pixels.len()
    &&& forall|f: int, p: int|
        0 <= f < frames.len() && 0 <= p < frames[f]@.pixels.len() ==> {
            let slot = #[trigger] images[f]@[p];
            let c = frames[f]@.pixels[p];
            &&& slot < palette_size(px)
            &&& rank(px, c) < MAX_COLORS ==> slot == rank(px, c)
        }
    &&& forall|f: int, p: int, g: int, q: int|
        0 <= f < frames.len() && 0 <= p < frames[f]@.pixels.len() && 0 <= g < frames.len() && 0
            <= q < frames[g]@.pixels.len() && frames[f]@.pixels[p] == frames[g]@.pixels[q]
            ==> #[trigger] images[f]@[p] == #[trigger] images[g]@[q]
}

/// Every pixel of a frame occurs among the pixels of all frames.
pub proof fn lemma_all_pixels_contains(frames: Seq<Image>, f: int, p: int)
    requires
        0 <= f < frames.len(),
        0 <= p < frames[f]@.pixels.len(),
    ensures
        all_pixels(frames).contains(frames[f]@.pixels[p]),
    decreases frames.len(),
{
    let before = all_pixels(frames.drop_last());
    if f == frames.len() - 1 {
        assert(all_pixels(frames)[before.len() + p] == frames[f]@.pixels[p]);
    } else {
        lemma_all_pixels_contains(frames.drop_last(), f, p);
        let k = choose|k: int| 0 <= k < before.len() && before[k] == frames[f]@.pixels[p];
        assert(all_pixels(frames)[k] == frames[f]@.pixels[p]);
    }
}

/// Whether `entries` holds a slot below `MAX_COLORS` for every colour of `pixels`.
pub open spec fn resolves(entries: Map<Color, usize>, pixels: Seq<Color>) -> bool {
    forall|p: int|
        0 <= p < pixels.len() ==> entries.contains_key(#[trigger] pixels[p]) && entries[pixels[p]]
            < MAX_COLORS
}

/// Whether `slots` holds, pixel by pixel, the slot that `entries` holds for the colour.
pub open spec fn is_indexed_by(pixels: Seq<Color>, entries: Map<Color, usize>, slots: Seq<u8>) -> bool {
    &&& slots.len() == pixels.len()
    &&& forall|p: int| 0 <= p < pixels.len() ==> #[trigger] slots[p] == entries[pixels[p]]
}

/// Replaces every pixel of a frame by the slot that `table` holds for its colour.
pub fn index_frame(img: &Image, table: &ColorTable) -> (slots: Vec<u8>)
    requires
        resolves(table_entries(*table), img@.pixels),
    ensures
        is_indexed_by(img@.pixels, table_entries(*table), slots@),
{
    let px = img.pixels();
    let mut slots: Vec<u8> = Vec::new();
    let mut p: usize = 0;
    while p < px.len()
        invariant
            p <= px.len(),
            px@ == img@.pixels,
            resolves(table_entries(*table), px@),
            slots@.len() == p,
            forall|q: int| 0 <= q < p ==> #[trigger] slots@[q] == table_entries(*table)[px@[q]],
        decreases px.len() - p,
    {
        let slot: usize = match table.get(px[p]) {
            Some(v) => v,
            None => unreached(),
        };
        slots.push(slot as u8);
        p += 1;
    }
    slots
}

/// Calls rayon's `par_iter`, `map` and `collect` on the frames: every frame
/// is indexed by `index_frame`, several at a time, and the results stand in
/// the order of the frames.
#[verifier::external_body]
fn index_frames(imgs: &[Image], table: &ColorTable) -> (images: Vec<Vec<u8>>)
    requires
        forall|f: int| 0 <= f < imgs@.len() ==> resolves(table_entries(*table), (#[trigger] imgs@[f])@.pixels),
    ensures
        images@.len() == imgs@.len(),
        forall|f: int|
            0 <= f < imgs@.len() ==> is_indexed_by(
                imgs@[f]@.pixels,
                table_entries(*table),
                (#[trigger] images@[f])@,
            ),
{
    imgs.par_iter().map(|img| index_frame(img, table)).collect()
}

/// Whether `distances` holds one row for each colour of a stream beyond its
/// palette, in the order of their ranks, and each row one distance for each
/// colour of the palette.
pub open spec fn is_distance_table(px: Seq<Color>, distances: Seq<Vec<u32>>) -> bool {
    &&& distances.len() == distinct_count(px) - palette_size(px)
    &&& forall|row: int| 0 <= row < distances.len() ==> (#[trigger] distances[row])@.len() == MAX_COLORS
}

/// Whether `slot` is the slot of the colour `c` of the stream `px`, given the
/// distances of the colours beyond the palette to the colours of the
/// palette: the rank of `c` if `c` is in the palette, and else the slot of
/// the closest palette colour, of several equally close ones the first.
pub open spec fn is_slot_of(px: Seq<Color>, distances: Seq<Vec<u32>>, c: Color, slot: u8) -> bool {
    if rank(px, c) < MAX_COLORS {
        slot == rank(px, c)
    } else {
        is_first_minimum(distances[rank(px, c) - MAX_COLORS]@, slot as int)
    }
}

/// Whether `images` hold for every pixel of `frames` the slot of its colour,
/// given the distances of the colours beyond the palette.
pub open spec fn is_ranked_indexing(frames: Seq<Image>, distances: Seq<Vec<u32>>, images: Seq<Vec<u8>>) -> bool {
    &&& images.len() == frames.len()
    &&& forall|f: int| 0 <= f < frames.len() ==> (#[trigger] images[f])@.len() == frames[f]@.pixels.len()
    &&& forall|f: int, p: int|
        0 <= f < frames.len() && 0 <= p < frames[f]@.pixels.len() ==> is_slot_of(
            all_pixels(frames),
            distances,
            frames[f]@.pixels[p],
            #[trigger] images[f]@[p],
        )
}

/// Given the distances, the slots of all pixels are fixed: two indexings of
/// the same frames with the same distances are the same.
pub proof fn lemma_ranked_indexing_is_fixed(
    frames: Seq<Image>,
    distances: Seq<Vec<u32>>,
    a: Seq<Vec<u8>>,
    b: Seq<Vec<u8>>,
)
    requires
        is_ranked_indexing(frames, distances, a),
        is_ranked_indexing(frames, distances, b),
    ensures
        a.len() == b.len(),
        forall|f: int| 0 <= f < a.len() ==> (#[trigger] a[f])@ == b[f]@,
{
    let px = all_pixels(frames);
    assert forall|f: int| 0 <= f < frames.len() implies #[trigger] a[f]@ == b[f]@ by {
        assert forall|p: int| 0 <= p < frames[f]@.pixels.len() implies a[f]@[p] == b[f]@[p] by {
            let c = frames[f]@.pixels[p];
            assert(is_slot_of(px, distances, c, a[f]@[p]));
            assert(is_slot_of(px, distances, c, b[f]@[p]));
            if rank(px, c) >= MAX_COLORS {
                let row = distances[rank(px, c) - MAX_COLORS]@;
                let i = a[f]@[p] as int;
                let j = b[f]@[p] as int;
                if i < j {
                    assert(row[j] < row[i]);
                }
                if j < i {
                    assert(row[i] < row[j]);
                }
            }
        }
        assert(a[f]@.len() == frames[f]@.pixels.len());
        assert(b[f]@.len() == frames[f]@.pixels.len());
        assert(a[f]@ =~= b[f]@);
    }
}

/// Builds the palette from a tally of the frames and its frequency order, and
/// indexes every pixel into it. A colour of the palette gets its rank as its
/// slot. A colour beyond the palette gets the slot at which its row of
/// `distances` is smallest, of several equally small ones the first; the row
/// of the colour of rank `k` is row `k - 256`. The result is the colour
/// table, one array of slots per frame, and no transparent slot.
pub fn palettize_ranked(imgs: &[Image], t: &Tally, order: &Vec<usize>, distances: &Vec<Vec<u32>>) -> (r: (
    Vec<u8>,
    Vec<Vec<u8>>,
    Option<u8>,
))
    requires
        t.describes(all_pixels(imgs@)),
        is_frequency_order(t.counts@, order@),
        is_distance_table(all_pixels(imgs@), distances@),
    ensures
        r.0@ == frequency_palette(all_pixels(imgs@)),
        is_frequency_indexing(imgs@, r.1@),
        is_ranked_indexing(imgs@, distances@, r.1@),
        r.2 is None,
{
    let ghost px = all_pixels(imgs@);
    let n: usize = t.colors.len();
    let size: usize = if n > MAX_COLORS { MAX_COLORS } else { n };
    proof {
        lemma_distinct_count(*t, px);
        assert forall|j: int| 0 <= j < n implies rank(px, t.colors@[#[trigger] order@[j] as int]) == j by {
            lemma_rank_in_order(*t, px, order@, j);
        }
    }
    let mut palette: Vec<u8> = Vec::new();
    let mut table = ColorTable::new();
    let mut k: usize = 0;
    while k < n
        invariant
            n == t.colors@.len(),
            n == order@.len(),
            size == palette_size(px),
            size == if n > MAX_COLORS { MAX_COLORS } else { n },
            size <= MAX_COLORS,
            k <= n,
            t.describes(px),
            is_frequency_order(t.counts@, order@),
            is_distance_table(px, distances@),
            distinct_count(px) == n,
            forall|j: int| 0 <= j < n ==> rank(px, t.colors@[#[trigger] order@[j] as int]) == j,
            palette@.len() == 3 * (if k < size { k } else { size }),
            forall|j: int|
                0 <= j < k && j < size ==> {
                    let c = t.colors@[#[trigger] order@[j] as int];
                    &&& palette@[3 * j] == c.r
                    &&& palette@[3 * j + 1] == c.g
                    &&& palette@[3 * j + 2] == c.b
                },
            forall|j: int|
                0 <= j < k ==> {
                    let c = t.colors@[#[trigger] order@[j] as int];
                    &&& table_entries(table).contains_key(c)
                    &&& table_entries(table)[c] < size
                    &&& j < size ==> table_entries(table)[c] == j
                    &&& j >= size ==> is_first_minimum(
                        distances@[j - MAX_COLORS]@,
                        table_entries(table)[c] as int,
                    )
                },
        decreases n - k,
    {
        assert(order@[k as int] < n);
        let c = t.colors[order[k]];
        let ghost before = table_entries(table);
        let slot: usize = if k < size {
            palette.push(c.r);
            palette.push(c.g);
            palette.push(c.b);
            k
        } else {
            assert(distances@[k - MAX_COLORS]@.len() == MAX_COLORS);
            closest_index(&distances[k - MAX_COLORS])
        };
        table.insert(c, slot);
        proof {
            assert forall|j: int| 0 <= j < k + 1 implies ({
                let d = t.colors@[#[trigger] order@[j] as int];
                &&& table_entries(table).contains_key(d)
                &&& table_entries(table)[d] < size
                &&& j < size ==> table_entries(table)[d] == j
                &&& j >= size ==> is_first_minimum(
                    distances@[j - MAX_COLORS]@,
                    table_entries(table)[d] as int,
                )
            }) by {
                let d = t.colors@[order@[j] as int];
                if j < k {
                    assert(rank(px, d) == j);
                    assert(rank(px, c) == k);
                    assert(d != c);
                    assert(before.contains_key(d));
                }
            }
        }
        k += 1;
    }
    proof {
        assert forall|c: Color| #[trigger] px.contains(c) implies ({
            &&& table_entries(table).contains_key(c)
            &&& table_entries(table)[c] < palette_size(px)
            &&& rank(px, c) < MAX_COLORS ==> table_entries(table)[c] == rank(px, c)
            &&& rank(px, c) >= MAX_COLORS ==> is_first_minimum(
                distances@[rank(px, c) - MAX_COLORS]@,
                table_entries(table)[c] as int,
            )
        }) by {
            assert(t.colors@.contains(c));
            let m = choose|m: int| 0 <= m < t.colors@.len() && t.colors@[m] == c;
            assert(order@.contains(m as usize));
            let j = choose|j: int| 0 <= j < order@.len() && order@[j] == m as usize;
            assert(rank(px, t.colors@[order@[j] as int]) == j);
        }
        assert forall|i: int| 0 <= i < palette@.len() implies palette@[i] == frequency_palette(px)[i] by {
            let j = i / 3;
            assert(order@[j] < n);
            lemma_color_of_rank(*t, px, order@, j);
        }
        assert(palette@ =~= frequency_palette(px));
    }
    proof {
        assert forall|f: int| 0 <= f < imgs@.len() implies resolves(
            table_entries(table),
            (#[trigger] imgs@[f])@.pixels,
        ) by {
            assert forall|p: int| 0 <= p < imgs@[f]@.pixels.len() implies table_entries(table).contains_key(
                #[trigger] imgs@[f]@.pixels[p],
            ) && table_entries(table)[imgs@[f]@.pixels[p]] < MAX_COLORS by {
                lemma_all_pixels_contains(imgs@, f, p);
            }
        }
    }
    let images = index_frames(imgs, &table);
    proof {
        assert forall|f: int, p: int| 0 <= f < imgs@.len() && 0 <= p < imgs@[f]@.pixels.len() implies ({
            let slot = #[trigger] images@[f]@[p];
            let c = imgs@[f]@.pixels[p];
            &&& slot == table_entries(table)[c]
            &&& slot < palette_size(px)
            &&& rank(px, c) < MAX_COLORS ==> slot == rank(px, c)
            &&& is_slot_of(px, distances@, c, slot)
        }) by {
            lemma_all_pixels_contains(imgs@, f, p);
            assert(is_indexed_by(imgs@[f]@.pixels, table_entries(table), images@[f]@));
        }
    }
    (palette, images, None)
}

/// Builds the palette of the frames by frequency and indexes every pixel into
/// it: it counts the colours, orders them, measures for every colour beyond
/// the palette its distance in CIE Lab space to every colour of the palette,
/// and hands all that to `palettize_ranked`. The result is the colour table,
/// one array of slots per frame, and no transparent slot.
pub fn naive_palettize(imgs: &[Image]) -> (r: (Vec<u8>, Vec<Vec<u8>>, Option<u8>))
    ensures
        r.0@ == frequency_palette(all_pixels(imgs@)),
        is_frequency_indexing(imgs@, r.1@),
        exists|distances: Seq<Vec<u32>>| #[trigger]
            is_distance_table(all_pixels(imgs@), distances) && is_ranked_indexing(imgs@, distances, r.1@),
        r.2 is None,
{
    let ghost px = all_pixels(imgs@);
    let t = tally_colors(imgs);
    let order = frequency_order(&t.counts);
    let n: usize = t.colors.len();
    proof {
        lemma_distinct_count(t, px);
    }
    let mut chosen: Vec<Lab> = Vec::new();
    let mut distances: Vec<Vec<u32>> = Vec::new();
    let mut k: usize = 0;
    while k < n
        invariant
            n == t.colors@.len(),
            n == order@.len(),
            n == distinct_count(px),
            k <= n,
            is_frequency_order(t.counts@, order@),
            chosen@.len() == if k < MAX_COLORS { k } else { MAX_COLORS },
            distances@.len() == if k < MAX_COLORS { 0 } else { k - MAX_COLORS },
            forall|row: int| 0 <= row < distances@.len() ==> (#[trigger] distances@[row])@.len() == MAX_COLORS,
        decreases n - k,
    {
        assert(order@[k as int] < n);
        let there = lab_of(t.colors[order[k]]);
        if k < MAX_COLORS {
            chosen.push(there);
        } else {
            distances.push(lab_distances(&chosen, &there));
        }
        k += 1;
    }
    let r = palettize_ranked(imgs, &t, &order, &distances);
    proof {
        assert(is_distance_table(px, distances@) && is_ranked_indexing(imgs@, distances@, r.1@));
    }
    r
}

} // verus!
