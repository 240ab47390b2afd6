//! Colours and the mathematical vocabulary used to talk about streams of pixels.

use vstd::prelude::*;
use vstd::relations::injective_on;
use vstd::set_lib::{lemma_int_range, lemma_len_subset, lemma_map_size, lemma_subset_equality, set_int_range};

verus! {

/// A colour with 8 bits per channel. Two colours are equal exactly when all
/// four channels are equal.
#[derive(Clone, Copy, Debug, PartialEq, Eq, Structural, Hash)]
pub struct Color {
    pub r: u8,
    pub g: u8,
    pub b: u8,
    pub a: u8,
}

impl Color {
    /// The four channels in the order red, green, blue, alpha.
    pub open spec fn bytes(self) -> Seq<u8> {
        seq![self.r, self.g, self.b, self.a]
    }

    /// The colour with the given channels.
    pub fn new(r: u8, g: u8, b: u8, a: u8) -> (c: Color)
        ensures
            c == (Color { r, g, b, a }),
    {
        Color { r, g, b, a }
    }
}

/// How many times `c` occurs in `px`.
pub open spec fn occurrences(px: Seq<Color>, c: Color) -> nat
    decreases px.len(),
{
    if px.len() == 0 {
        0
    } else {
        occurrences(px.drop_last(), c) + if px.last() == c { 1nat } else { 0nat }
    }
}

/// Whether `i` is the position at which `c` occurs first in `px`.
pub open spec fn is_first_at(px: Seq<Color>, c: Color, i: int) -> bool {
    &&& 0 <= i < px.len()
    &&& px[i] == c
    &&& forall|k: int| 0 <= k < i ==> px[k] != c
}

/// The position at which `c` occurs first in `px` (meaningful when it occurs).
pub open spec fn first_index(px: Seq<Color>, c: Color) -> int {
    choose|i: int| is_first_at(px, c, i)
}

/// The order in which colours enter the palette: more frequent colours come
/// first, and of two equally frequent colours the one that appears first.
pub open spec fn outranks(px: Seq<Color>, c: Color, d: Color) -> bool {
    ||| occurrences(px, c) > occurrences(px, d)
    ||| (occurrences(px, c) == occurrences(px, d) && first_index(px, c) < first_index(px, d))
}

/// The colours of `px` that come before `c` in palette order.
pub open spec fn outrankers(px: Seq<Color>, c: Color) -> Set<Color> {
    Set::new(|d: Color| px.contains(d) && outranks(px, d, c))
}

/// The position of `c` in palette order: how many colours of `px` come before it.
pub open spec fn rank(px: Seq<Color>, c: Color) -> nat {
    outrankers(px, c).len()
}

/// The colour of `px` that has rank `k` (meaningful when `px` holds more than
/// `k` different colours).
pub open spec fn color_of_rank(px: Seq<Color>, k: nat) -> Color {
    choose|c: Color| px.contains(c) && rank(px, c) == k
}

/// How many different colours `px` holds.
pub open spec fn distinct_count(px: Seq<Color>) -> nat {
    px.to_set().len()
}

/// One more pixel adds one occurrence of its own colour and none of any other.
pub proof fn lemma_occurrences_push(px: Seq<Color>, x: Color, c: Color)
    ensures
        occurrences(px.push(x), c) == occurrences(px, c) + if x == c { 1nat } else { 0nat },
{
    assert(px.push(x).drop_last() =~= px);
}

/// A colour occurs at most as often as there are pixels, and at least once
/// exactly if the stream holds it.
pub proof fn lemma_occurrences_bounds(px: Seq<Color>, c: Color)
    ensures
        occurrences(px, c) <= px.len(),
        px.contains(c) <==> occurrences(px, c) > 0,
    decreases px.len(),
{
    if px.len() > 0 {
        let before = px.drop_last();
        lemma_occurrences_bounds(before, c);
        if before.contains(c) {
            let k = choose|k: int| 0 <= k < before.len() && before[k] == c;
            assert(px[k] == c);
        }
        if px.contains(c) && px.last() != c {
            let k = choose|k: int| 0 <= k < px.len() && px[k] == c;
            assert(before[k] == c);
        }
        if px.last() == c {
            assert(px[px.len() - 1] == c);
        }
    }
}

/// The position at which a colour occurs first is `first_index`.
pub proof fn lemma_first_index(px: Seq<Color>, c: Color, i: int)
    requires
        is_first_at(px, c, i),
    ensures
        first_index(px, c) == i,
{
    let j = first_index(px, c);
    assert(is_first_at(px, c, j));
    if j < i {
        assert(px[j] != c);
    }
    if i < j {
        assert(px[i] != c);
    }
}

/// A colour that occurs in a stream has a first occurrence.
pub proof fn lemma_first_index_exists(px: Seq<Color>, c: Color)
    requires
        px.contains(c),
    ensures
        is_first_at(px, c, first_index(px, c)),
    decreases px.len(),
{
    let before = px.drop_last();
    if before.contains(c) {
        lemma_first_index_exists(before, c);
        let i = first_index(before, c);
        assert(is_first_at(px, c, i)) by {
            assert forall|k: int| 0 <= k < i implies px[k] != c by {
                assert(before[k] != c);
            }
        }
    } else {
        let k = choose|k: int| 0 <= k < px.len() && px[k] == c;
        if k < px.len() - 1 {
            assert(before[k] == c);
        }
        assert(is_first_at(px, c, px.len() - 1)) by {
            assert forall|j: int| 0 <= j < px.len() - 1 implies px[j] != c by {
                if px[j] == c {
                    assert(before[j] == c);
                }
            }
        }
    }
}

/// Of two different colours of a stream, one comes before the other in
/// palette order.
pub proof fn lemma_outranks_is_total(px: Seq<Color>, c: Color, d: Color)
    requires
        px.contains(c),
        px.contains(d),
        c != d,
    ensures
        outranks(px, c, d) || outranks(px, d, c),
{
    lemma_first_index_exists(px, c);
    lemma_first_index_exists(px, d);
}

/// A colour that comes before another in palette order has the lower rank.
pub proof fn lemma_rank_follows_order(px: Seq<Color>, c: Color, d: Color)
    requires
        px.contains(c),
        px.contains(d),
        outranks(px, c, d),
    ensures
        rank(px, c) < rank(px, d),
{
    px.lemma_cardinality_of_set();
    let above_c = outrankers(px, c);
    let above_d = outrankers(px, d);
    assert(above_d.subset_of(px.to_set()));
    assert(above_d.finite());
    assert(above_d.contains(c));
    assert(above_c.subset_of(above_d.remove(c)));
    lemma_len_subset(above_c, above_d.remove(c));
}

/// Different colours of a stream have different ranks.
pub proof fn lemma_ranks_differ(px: Seq<Color>, c: Color, d: Color)
    requires
        px.contains(c),
        px.contains(d),
        c != d,
    ensures
        rank(px, c) != rank(px, d),
{
    lemma_outranks_is_total(px, c, d);
    if outranks(px, c, d) {
        lemma_rank_follows_order(px, c, d);
    } else {
        lemma_rank_follows_order(px, d, c);
    }
}

/// Fewer colours come before a colour of a stream than the stream has colours.
pub proof fn lemma_rank_below_count(px: Seq<Color>, c: Color)
    requires
        px.contains(c),
    ensures
        rank(px, c) < distinct_count(px),
{
    px.lemma_cardinality_of_set();
    let others = px.to_set().remove(c);
    assert(outrankers(px, c).subset_of(others));
    lemma_len_subset(outrankers(px, c), others);
}

/// The ranks of the colours of a stream are the numbers below the number of
/// its different colours, each taken once: for every such number
/// `color_of_rank` is a colour of the stream, and it has that rank.
pub proof fn lemma_every_rank_is_taken(px: Seq<Color>, k: nat)
    requires
        k < distinct_count(px),
    ensures
        px.contains(color_of_rank(px, k)),
        rank(px, color_of_rank(px, k)) == k,
{
    px.lemma_cardinality_of_set();
    let colors = px.to_set();
    let n = colors.len() as int;
    let rank_of = |c: Color| rank(px, c) as int;
    assert(injective_on(rank_of, colors)) by {
        assert forall|c: Color, d: Color|
            colors.contains(c) && colors.contains(d) && #[trigger] rank_of(c) == #[trigger] rank_of(d) implies c
            == d by {
            if c != d {
                lemma_ranks_differ(px, c, d);
            }
        }
    }
    let ranks = colors.map(rank_of);
    lemma_map_size(colors, ranks, rank_of);
    lemma_int_range(0, n);
    assert(ranks.subset_of(set_int_range(0, n))) by {
        assert forall|r: int| ranks.contains(r) implies set_int_range(0, n).contains(r) by {
            let c = choose|c: Color| colors.contains(c) && r == rank_of(c);
            lemma_rank_below_count(px, c);
        }
    }
    lemma_subset_equality(ranks, set_int_range(0, n));
    assert(set_int_range(0, n).contains(k as int));
    assert(ranks.contains(k as int));
    let c = choose|c: Color| colors.contains(c) && k as int == rank_of(c);
    assert(px.contains(c) && rank(px, c) == k);
}

} // verus!
