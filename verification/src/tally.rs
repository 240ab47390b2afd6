//! Counting how often each colour occurs across all frames.

use vstd::prelude::*;
use crate::color::{Color, occurrences, is_first_at, first_index, lemma_occurrences_push, lemma_occurrences_bounds, lemma_first_index};
use crate::image::{Image, all_pixels};
use crate::table::{ColorTable, table_entries};

verus! {

/// The different colours of a stream of pixels in the order in which they
/// first appear, how often each occurs, and a table that finds a colour's
/// position among them.
pub struct Tally {
    pub colors: Vec<Color>,
    pub counts: Vec<u128>,
    pub slots: ColorTable,
}

impl Tally {
    /// Whether this tally is the tally of the stream `px`.
    pub open spec fn describes(&self, px: Seq<Color>) -> bool {
        &&& self.colors@.len() == self.counts@.len()
        &&& self.colors@.no_duplicates()
        &&& forall|c: Color| px.contains(c) <==> self.colors@.contains(c)
        &&& forall|i: int|
            0 <= i < self.colors@.len() ==> #[trigger] self.counts@[i] == occurrences(
                px,
                self.colors@[i],
            )
        &&& forall|i: int, j: int|
            0 <= i < j < self.colors@.len() ==> first_index(px, #[trigger] self.colors@[i])
                < first_index(px, #[trigger] self.colors@[j])
        &&& forall|c: Color| #[trigger]
            table_entries(self.slots).contains_key(c) <==> self.colors@.contains(c)
        &&& forall|i: int|
            0 <= i < self.colors@.len() ==> table_entries(self.slots)[#[trigger] self.colors@[i]]
                == i
    }
}

/// The loop invariant of counting: like `Tally::describes`, with the position
/// of each colour's first appearance written down in `firsts`.
pub open spec fn tallied(
    seen: Seq<Color>,
    colors: Seq<Color>,
    counts: Seq<u128>,
    entries: Map<Color, usize>,
    firsts: Seq<int>,
) -> bool {
    &&& colors.len() == counts.len()
    &&& colors.len() == firsts.len()
    &&& forall|k: int| 0 <= k < seen.len() ==> colors.contains(#[trigger] seen[k])
    &&& forall|i: int| 0 <= i < colors.len() ==> is_first_at(seen, #[trigger] colors[i], firsts[i])
    &&& forall|i: int, j: int| 0 <= i < j < colors.len() ==> #[trigger] firsts[i] < #[trigger] firsts[j]
    &&& forall|i: int| 0 <= i < colors.len() ==> #[trigger] counts[i] == occurrences(seen, colors[i])
    &&& forall|c: Color| #[trigger] entries.contains_key(c) <==> colors.contains(c)
    &&& forall|i: int| 0 <= i < colors.len() ==> entries[#[trigger] colors[i]] == i
}

/// While counting, no colour is listed twice.
proof fn lemma_tallied_distinct(
    seen: Seq<Color>,
    colors: Seq<Color>,
    counts: Seq<u128>,
    entries: Map<Color, usize>,
    firsts: Seq<int>,
)
    requires
        tallied(seen, colors, counts, entries, firsts),
    ensures
        colors.no_duplicates(),
{
    assert forall|i: int, j: int| 0 <= i < colors.len() && 0 <= j < colors.len() && i != j implies colors[i] != colors[j] by {
        assert(is_first_at(seen, colors[i], firsts[i]));
        assert(is_first_at(seen, colors[j], firsts[j]));
        if i < j {
            assert(firsts[i] < firsts[j]);
        } else {
            assert(firsts[j] < firsts[i]);
        }
    }
}

/// Counts the colours of all frames.
pub fn tally_colors(imgs: &[Image]) -> (t: Tally)
    ensures
        t.describes(all_pixels(imgs@)),
{
    let mut colors: Vec<Color> = Vec::new();
    let mut counts: Vec<u128> = Vec::new();
    let mut slots = ColorTable::new();
    let ghost mut seen: Seq<Color> = Seq::empty();
    let ghost mut firsts: Seq<int> = Seq::empty();
    let mut f: usize = 0;
    proof {
        assert(imgs@.take(0) =~= Seq::<Image>::empty());
    }
    while f < imgs.len()
        invariant
            f <= imgs.len(),
            seen == all_pixels(imgs@.take(f as int)),
            seen.len() <= f * 0x1_0000_0000_0000_0000,
            tallied(seen, colors@, counts@, table_entries(slots), firsts),
        decreases imgs.len() - f,
    {
        let px = imgs[f].pixels();
        let ghost base = seen;
        let mut p: usize = 0;
        proof {
            assert(base + px@.take(0) =~= base);
        }
        while p < px.len()
            invariant
                p <= px.len(),
                f < imgs.len(),
                px@ == imgs@[f as int]@.pixels,
                base.len() <= f * 0x1_0000_0000_0000_0000,
                seen == base + px@.take(p as int),
                tallied(seen, colors@, counts@, table_entries(slots), firsts),
            decreases px.len() - p,
        {
            let c = px[p];
            let ghost old_colors = colors@;
            let ghost old_counts = counts@;
            proof {
                lemma_tallied_distinct(seen, colors@, counts@, table_entries(slots), firsts);
            }
            match slots.get(c) {
                Some(i) => {
                    proof {
                        let k = choose|k: int| 0 <= k < colors@.len() && colors@[k] == c;
                        assert(table_entries(slots)[colors@[k]] == k);
                        lemma_occurrences_bounds(seen, c);
                    }
                    let n: u128 = counts[i];
                    counts.set(i, n + 1);
                },
                None => {
                    proof {
                        lemma_occurrences_bounds(seen, c);
                        if seen.contains(c) {
                            let k = choose|k: int| 0 <= k < seen.len() && seen[k] == c;
                            assert(colors@.contains(seen[k]));
                        }
                        firsts = firsts.push(seen.len() as int);
                    }
                    slots.insert(c, colors.len());
                    colors.push(c);
                    counts.push(1);
                },
            }
            proof {
                let next = seen.push(c);
                assert(next =~= base + px@.take(p + 1));
                assert forall|i: int| 0 <= i < colors@.len() implies #[trigger] counts@[i] == occurrences(next, colors@[i]) by {
                    lemma_occurrences_push(seen, c, colors@[i]);
                    if i < old_colors.len() {
                        assert(old_counts[i] == occurrences(seen, old_colors[i]));
                    }
                }
                assert forall|k: int| 0 <= k < next.len() implies colors@.contains(#[trigger] next[k]) by {
                    if k < seen.len() {
                        assert(old_colors.contains(seen[k]));
                        let m = choose|m: int| 0 <= m < old_colors.len() && old_colors[m] == seen[k];
                        assert(colors@[m] == seen[k]);
                    } else {
                        if old_colors.contains(c) {
                            let m = choose|m: int| 0 <= m < old_colors.len() && old_colors[m] == c;
                            assert(colors@[m] == c);
                        } else {
                            assert(colors@[old_colors.len() as int] == c);
                        }
                    }
                }
                assert forall|i: int| 0 <= i < colors@.len() implies is_first_at(next, #[trigger] colors@[i], firsts[i]) by {
                    if i < old_colors.len() {
                        assert(is_first_at(seen, old_colors[i], firsts[i]));
                    }
                }
                assert forall|i: int, j: int| 0 <= i < j < colors@.len() implies #[trigger] firsts[i] < #[trigger] firsts[j] by {
                    if j == old_colors.len() {
                        assert(is_first_at(seen, old_colors[i], firsts[i]));
                    }
                }
                assert forall|d: Color| #[trigger] table_entries(slots).contains_key(d) <==> colors@.contains(d) by {
                    if old_colors.contains(d) {
                        let m = choose|m: int| 0 <= m < old_colors.len() && old_colors[m] == d;
                        assert(colors@[m] == d);
                    }
                    if colors@.contains(d) {
                        let m = choose|m: int| 0 <= m < colors@.len() && colors@[m] == d;
                        if m < old_colors.len() {
                            assert(old_colors[m] == d);
                        }
                    }
                    if d == c && !old_colors.contains(c) {
                        assert(colors@[old_colors.len() as int] == c);
                    }
                }
                assert forall|i: int| 0 <= i < colors@.len() implies table_entries(slots)[#[trigger] colors@[i]] == i by {
                    if i < old_colors.len() {
                        assert(old_colors[i] == colors@[i]);
                        assert(old_colors.contains(old_colors[i]));
                    }
                }
                seen = next;
            }
            p += 1;
        }
        proof {
            assert(px@.take(px.len() as int) =~= px@);
            assert(imgs@.take(f + 1).drop_last() =~= imgs@.take(f as int));
            assert(imgs@.take(f + 1).last() == imgs@[f as int]);
        }
        f += 1;
    }
    let t = Tally { colors, counts, slots };
    proof {
        assert(imgs@.take(imgs.len() as int) =~= imgs@);
        lemma_tallied_distinct(seen, t.colors@, t.counts@, table_entries(t.slots), firsts);
        assert forall|c: Color| seen.contains(c) <==> t.colors@.contains(c) by {
            if seen.contains(c) {
                let k = choose|k: int| 0 <= k < seen.len() && seen[k] == c;
                assert(t.colors@.contains(seen[k]));
            }
            if t.colors@.contains(c) {
                let m = choose|m: int| 0 <= m < t.colors@.len() && t.colors@[m] == c;
                assert(is_first_at(seen, t.colors@[m], firsts[m]));
                assert(seen[firsts[m]] == c);
            }
        }
        assert forall|i: int, j: int| 0 <= i < j < t.colors@.len() implies first_index(seen, #[trigger] t.colors@[i]) < first_index(seen, #[trigger] t.colors@[j]) by {
            lemma_first_index(seen, t.colors@[i], firsts[i]);
            lemma_first_index(seen, t.colors@[j], firsts[j]);
            assert(firsts[i] < firsts[j]);
        }
    }
    t
}

} // verus!
