//! Palette order: colours by falling frequency, ties by first appearance.

use vstd::prelude::*;
use vstd::seq_lib::{to_multiset_contains, to_multiset_len};
use crate::color::{Color, outranks, outrankers, rank, distinct_count, color_of_rank, occurrences};
use crate::tally::Tally;

verus! {

/// The order of pairs of integers: by the first part, then by the second.
pub open spec fn pair_le(a: (u128, usize), b: (u128, usize)) -> bool {
    a.0 < b.0 || (a.0 == b.0 && a.1 <= b.1)
}

/// Whether no pair of `s` is followed by a smaller one.
pub open spec fn ascending(s: Seq<(u128, usize)>) -> bool {
    forall|a: int, b: int| 0 <= a < b < s.len() ==> pair_le(#[trigger] s[a], #[trigger] s[b])
}

/// Calls `slice::sort` on pairs of integers, which std orders by the first
/// part and then by the second: afterwards the vector holds the same pairs,
/// each as often as before, in ascending order.
#[verifier::external_body]
fn sort_pairs(v: &mut Vec<(u128, usize)>)
    ensures
        final(v)@.to_multiset() == old(v)@.to_multiset(),
        ascending(final(v)@),
{
    v.sort();
}

/// Whether position `i` comes before position `j` when positions are ordered
/// by falling count, and by rising position among equal counts.
pub open spec fn leads(counts: Seq<u128>, i: int, j: int) -> bool {
    counts[i] > counts[j] || (counts[i] == counts[j] && i < j)
}

/// Whether `order` lists every position of `counts` once, each before all
/// the positions that it leads.
pub open spec fn is_frequency_order(counts: Seq<u128>, order: Seq<usize>) -> bool {
    &&& order.len() == counts.len()
    &&& forall|k: int| 0 <= k < order.len() ==> #[trigger] order[k] < counts.len()
    &&& forall|m: usize| m < counts.len() ==> #[trigger] order.contains(m)
    &&& forall|a: int, b: int|
        0 <= a < b < order.len() ==> leads(counts, #[trigger] order[a] as int, #[trigger] order[b] as int)
}

/// Orders the positions of `counts` by falling count; equal counts keep their
/// relative order.
pub fn frequency_order(counts: &Vec<u128>) -> (order: Vec<usize>)
    ensures
        is_frequency_order(counts@, order@),
{
    let n: usize = counts.len();
    let mut keys: Vec<(u128, usize)> = Vec::new();
    let mut i: usize = 0;
    while i < n
        invariant
            n == counts.len(),
            i <= n,
            keys@.len() == i,
            forall|m: int| 0 <= m < i ==> #[trigger] keys@[m] == ((u128::MAX - counts@[m]) as u128, m as usize),
        decreases n - i,
    {
        keys.push((u128::MAX - counts[i], i));
        i += 1;
    }
    let ghost unsorted = keys@;
    sort_pairs(&mut keys);
    proof {
        broadcast use to_multiset_contains, to_multiset_len;
        assert(keys@.len() == n) by {
            assert(keys@.to_multiset().len() == unsorted.to_multiset().len());
        }
        assert(unsorted.no_duplicates());
        unsorted.lemma_multiset_has_no_duplicates();
        keys@.lemma_multiset_has_no_duplicates_conv();
        assert forall|k: int| 0 <= k < n implies unsorted.contains(#[trigger] keys@[k]) by {
            assert(keys@.contains(keys@[k]));
            assert(keys@.to_multiset().count(keys@[k]) > 0);
        }
        assert forall|m: int| 0 <= m < n implies keys@.contains(#[trigger] unsorted[m]) by {
            assert(unsorted.contains(unsorted[m]));
            assert(unsorted.to_multiset().count(unsorted[m]) > 0);
        }
    }
    let mut order: Vec<usize> = Vec::new();
    let mut k: usize = 0;
    while k < n
        invariant
            n == counts.len(),
            keys@.len() == n,
            k <= n,
            order@.len() == k,
            forall|j: int| 0 <= j < k ==> #[trigger] order@[j] == keys@[j].1,
        decreases n - k,
    {
        order.push(keys[k].1);
        k += 1;
    }
    proof {
        assert forall|j: int| 0 <= j < n implies #[trigger] order@[j] < n && keys@[j] == ((u128::MAX - counts@[order@[j] as int]) as u128, order@[j]) by {
            assert(unsorted.contains(keys@[j]));
            let m = choose|m: int| 0 <= m < unsorted.len() && unsorted[m] == keys@[j];
            assert(unsorted[m] == ((u128::MAX - counts@[m]) as u128, m as usize));
        }
        assert forall|m: usize| m < n implies #[trigger] order@.contains(m) by {
            assert(keys@.contains(unsorted[m as int]));
            let j = choose|j: int| 0 <= j < keys@.len() && keys@[j] == unsorted[m as int];
            assert(order@[j] == m);
        }
        assert forall|a: int, b: int| 0 <= a < b < n implies leads(counts@, #[trigger] order@[a] as int, #[trigger] order@[b] as int) by {
            assert(pair_le(keys@[a], keys@[b]));
            assert(keys@[a] != keys@[b]);
        }
    }
    order
}

/// A tally holds as many colours as its stream has different ones.
pub proof fn lemma_distinct_count(t: Tally, px: Seq<Color>)
    requires
        t.describes(px),
    ensures
        distinct_count(px) == t.colors@.len(),
{
    assert(px.to_set() =~= t.colors@.to_set());
    t.colors@.unique_seq_to_set();
}

/// The colour at position `k` of a frequency order has rank `k`.
pub proof fn lemma_rank_in_order(t: Tally, px: Seq<Color>, order: Seq<usize>, k: int)
    requires
        t.describes(px),
        is_frequency_order(t.counts@, order),
        0 <= k < order.len(),
    ensures
        rank(px, t.colors@[order[k] as int]) == k,
{
    let colors = t.colors@;
    let counts = t.counts@;
    let c = colors[order[k] as int];
    let before = Seq::new(k as nat, |j: int| colors[order[j] as int]);
    assert forall|i: int, j: int| 0 <= i < colors.len() && 0 <= j < colors.len() && leads(counts, i, j) implies outranks(px, colors[i], colors[j]) by {
        assert(counts[i] == occurrences(px, colors[i]));
        assert(counts[j] == occurrences(px, colors[j]));
    }
    assert forall|i: int, j: int| 0 <= i < j < k implies before[i] != before[j] by {
        assert(leads(counts, order[i] as int, order[j] as int));
    }
    assert(before.no_duplicates());
    before.unique_seq_to_set();
    assert forall|d: Color| outrankers(px, c).contains(d) <==> before.to_set().contains(d) by {
        if outrankers(px, c).contains(d) {
            assert(colors.contains(d));
            let m = choose|m: int| 0 <= m < colors.len() && colors[m] == d;
            assert(order.contains(m as usize));
            let j = choose|j: int| 0 <= j < order.len() && order[j] == m as usize;
            if j > k {
                assert(leads(counts, order[k] as int, order[j] as int));
                assert(outranks(px, c, d));
            }
            assert(j < k);
            assert(before[j] == d);
            assert(before.contains(d));
        }
        if before.to_set().contains(d) {
            assert(before.contains(d));
            let j = choose|j: int| 0 <= j < before.len() && before[j] == d;
            assert(leads(counts, order[j] as int, order[k] as int));
            assert(colors.contains(colors[order[j] as int]));
        }
    }
    assert(outrankers(px, c) =~= before.to_set());
}

/// The colour of rank `k` is the one at position `k` of a frequency order.
pub proof fn lemma_color_of_rank(t: Tally, px: Seq<Color>, order: Seq<usize>, k: int)
    requires
        t.describes(px),
        is_frequency_order(t.counts@, order),
        0 <= k < order.len(),
    ensures
        color_of_rank(px, k as nat) == t.colors@[order[k] as int],
{
    let c = t.colors@[order[k] as int];
    lemma_rank_in_order(t, px, order, k);
    assert(t.colors@.contains(c));
    assert(px.contains(c) && rank(px, c) == k as nat);
    let d = color_of_rank(px, k as nat);
    assert(px.contains(d) && rank(px, d) == k as nat);
    assert(t.colors@.contains(d));
    let m = choose|m: int| 0 <= m < t.colors@.len() && t.colors@[m] == d;
    assert(order.contains(m as usize));
    let j = choose|j: int| 0 <= j < order.len() && order[j] == m as usize;
    lemma_rank_in_order(t, px, order, j);
}

} // verus!
