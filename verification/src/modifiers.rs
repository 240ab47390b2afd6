//! Reordering the frames before they are converted.

use vstd::prelude::*;

verus! {

/// A change to the order of the frames.
#[derive(Debug, Clone, PartialEq, Eq)]
pub enum Modifier {
    /// Puts the frames in the opposite order.
    Reverse,
    /// Exchanges pairs of frames; the pairs are given by their positions and
    /// exchanged in the order in which they are listed.
    Shuffle(Vec<(usize, usize)>),
}

/// `<[T]>::swap` exchanges the items at two positions of a slice and leaves
/// the others where they are. It panics if a position is out of bounds.
pub assume_specification<T>[ <[T]>::swap ](s: &mut [T], a: usize, b: usize)
    requires
        a < old(s)@.len(),
        b < old(s)@.len(),
    ensures
        final(s)@ == old(s)@.update(a as int, old(s)@[b as int]).update(b as int, old(s)@[a as int]),
;

/// Puts the items of `src` in the opposite order.
pub fn reverse<P>(src: &mut [P])
    ensures
        final(src)@ == old(src)@.reverse(),
{
    let len: usize = src.len();
    if len == 0 {
        assert(src@ =~= old(src)@.reverse());
        return ;
    }
    let last_index: usize = len - 1;
    let mut n: usize = 0;
    while n < len / 2
        invariant
            len == old(src)@.len(),
            src@.len() == len,
            last_index == len - 1,
            n <= len / 2,
            forall|k: int| 0 <= k < n ==> src@[k] == old(src)@[len - 1 - k],
            forall|k: int| len - n <= k < len ==> src@[k] == old(src)@[len - 1 - k],
            forall|k: int| n <= k < len - n ==> src@[k] == old(src)@[k],
        decreases len / 2 - n,
    {
        src.swap(n, last_index - n);
        n += 1;
    }
    assert(src@ =~= old(src)@.reverse());
}

/// `s` with the items at positions `a` and `b` exchanged.
pub open spec fn swapped<P>(s: Seq<P>, a: int, b: int) -> Seq<P> {
    s.update(a, s[b]).update(b, s[a])
}

/// Whether every position named in `swaps` lies within a sequence of `len` items.
pub open spec fn in_bounds(swaps: Seq<(usize, usize)>, len: nat) -> bool {
    forall|k: int| 0 <= k < swaps.len() ==> (#[trigger] swaps[k]).0 < len && swaps[k].1 < len
}

/// `s` after the exchanges of `swaps`, made one after the other.
pub open spec fn shuffled<P>(s: Seq<P>, swaps: Seq<(usize, usize)>) -> Seq<P>
    decreases swaps.len(),
{
    if swaps.len() == 0 {
        s
    } else {
        swapped(shuffled(s, swaps.drop_last()), swaps.last().0 as int, swaps.last().1 as int)
    }
}

/// Exchanges keep the number of items.
pub proof fn lemma_shuffled_len<P>(s: Seq<P>, swaps: Seq<(usize, usize)>)
    requires
        in_bounds(swaps, s.len()),
    ensures
        shuffled(s, swaps).len() == s.len(),
    decreases swaps.len(),
{
    if swaps.len() > 0 {
        assert(in_bounds(swaps.drop_last(), s.len())) by {
            assert forall|k: int| 0 <= k < swaps.drop_last().len() implies (#[trigger] swaps.drop_last()[k]).0
                < s.len() && swaps.drop_last()[k].1 < s.len() by {
                assert(swaps.drop_last()[k] == swaps[k]);
            }
        }
        lemma_shuffled_len(s, swaps.drop_last());
        assert(swaps.last() == swaps[swaps.len() - 1]);
    }
}

/// The positions from which the partner of frame `i` is drawn when `len`
/// frames are shuffled: from the first of the pair up to, but not including,
/// the second. The window reaches half of `i` to either side of `i` and ends
/// at the last frame at the latest.
pub fn shuffle_window(i: usize, len: usize) -> (window: (usize, usize))
    requires
        i < len,
    ensures
        window.0 == i - i / 2,
        window.1 == if i + i / 2 < len - 1 { i + i / 2 } else { len - 1 },
{
    let half: usize = i / 2;
    let high: usize = if half < len - 1 - i { i + half } else { len - 1 };
    (i - half, high)
}

/// Exchanges the items of `src` pair by pair as `swaps` lists them.
pub fn shuffle<P>(src: &mut [P], swaps: &[(usize, usize)])
    requires
        in_bounds(swaps@, old(src)@.len()),
    ensures
        final(src)@ == shuffled(old(src)@, swaps@),
{
    let mut k: usize = 0;
    assert(swaps@.take(0) =~= Seq::<(usize, usize)>::empty());
    while k < swaps.len()
        invariant
            k <= swaps@.len(),
            src@.len() == old(src)@.len(),
            in_bounds(swaps@, old(src)@.len()),
            src@ == shuffled(old(src)@, swaps@.take(k as int)),
        decreases swaps.len() - k,
    {
        let pair: (usize, usize) = swaps[k];
        assert(swaps@.take(k + 1).drop_last() =~= swaps@.take(k as int));
        assert(swaps@.take(k + 1).last() == swaps@[k as int]);
        src.swap(pair.0, pair.1);
        k += 1;
    }
    assert(swaps@.take(swaps@.len() as int) =~= swaps@);
}

/// Whether `modifier` can be applied to `len` items.
pub open spec fn fits(modifier: Modifier, len: nat) -> bool {
    match modifier {
        Modifier::Reverse => true,
        Modifier::Shuffle(swaps) => in_bounds(swaps@, len),
    }
}

/// `s` after `modifier` has been applied.
pub open spec fn modified_by<P>(s: Seq<P>, modifier: Modifier) -> Seq<P> {
    match modifier {
        Modifier::Reverse => s.reverse(),
        Modifier::Shuffle(swaps) => shuffled(s, swaps@),
    }
}

/// `s` after the `modifiers` have been applied, one after the other.
pub open spec fn modified<P>(s: Seq<P>, modifiers: Seq<Modifier>) -> Seq<P>
    decreases modifiers.len(),
{
    if modifiers.len() == 0 {
        s
    } else {
        modified_by(modified(s, modifiers.drop_last()), modifiers.last())
    }
}

/// Applies the modifiers to the frames, one after the other.
pub fn modify<P>(source_images: &mut [P], modifiers: &[Modifier])
    requires
        forall|k: int| 0 <= k < modifiers@.len() ==> fits(#[trigger] modifiers@[k], old(source_images)@.len()),
    ensures
        final(source_images)@ == modified(old(source_images)@, modifiers@),
{
    let mut k: usize = 0;
    assert(modifiers@.take(0) =~= Seq::<Modifier>::empty());
    while k < modifiers.len()
        invariant
            k <= modifiers@.len(),
            source_images@.len() == old(source_images)@.len(),
            forall|j: int| 0 <= j < modifiers@.len() ==> fits(#[trigger] modifiers@[j], old(source_images)@.len()),
            source_images@ == modified(old(source_images)@, modifiers@.take(k as int)),
        decreases modifiers.len() - k,
    {
        assert(modifiers@.take(k + 1).drop_last() =~= modifiers@.take(k as int));
        assert(modifiers@.take(k + 1).last() == modifiers@[k as int]);
        assert(fits(modifiers@[k as int], old(source_images)@.len()));
        match &modifiers[k] {
            Modifier::Reverse => {
                reverse(source_images);
            },
            Modifier::Shuffle(swaps) => {
                proof {
                    lemma_shuffled_len(source_images@, swaps@);
                }
                shuffle(source_images, swaps.as_slice());
            },
        }
        k += 1;
    }
    assert(modifiers@.take(modifiers@.len() as int) =~= modifiers@);
}

} // verus!
