//! Choosing, among the names of the files of a directory, those that lie
//! between two names.

use vstd::prelude::*;

verus! {

/// Whether `a` comes before `b`, decided at position `k`: up to there the two
/// agree, and there `a` ends while `b` goes on, or `a` has the smaller byte.
pub open spec fn before_at(a: Seq<u8>, b: Seq<u8>, k: int) -> bool {
    &&& 0 <= k <= a.len()
    &&& k <= b.len()
    &&& forall|i: int| 0 <= i < k ==> a[i] == b[i]
    &&& (k == a.len() && k < b.len()) || (k < a.len() && k < b.len() && a[k] < b[k])
}

/// Whether the name `a` comes before the name `b` when names are ordered byte
/// by byte.
pub open spec fn name_before(a: Seq<u8>, b: Seq<u8>) -> bool {
    exists|k: int| before_at(a, b, k)
}

/// Whether `name` lies between `start` and `end`, both included.
pub open spec fn lies_between(name: Seq<u8>, start: Seq<u8>, end: Seq<u8>) -> bool {
    !name_before(name, start) && !name_before(end, name)
}

/// Whether the name at position `i` comes before the name at position `j`;
/// of two equal names the one at the lower position comes first.
pub open spec fn comes_before(names: Seq<Vec<u8>>, i: int, j: int) -> bool {
    name_before(names[i]@, names[j]@) || (names[i]@ == names[j]@ && i < j)
}

/// How two names stand to each other.
#[derive(Debug, Clone, Copy, PartialEq, Eq, Structural)]
pub enum Place {
    Before,
    Same,
    After,
}

/// Of two names, not both come before the other, and none comes before itself.
pub proof fn lemma_name_before_is_strict(a: Seq<u8>, b: Seq<u8>)
    ensures
        !(name_before(a, b) && name_before(b, a)),
        name_before(a, b) ==> a != b,
{
    if name_before(a, b) {
        let k = choose|k: int| before_at(a, b, k);
        if name_before(b, a) {
            let m = choose|m: int| before_at(b, a, m);
            if k < m {
                assert(b[k] == a[k]);
            } else if m < k {
                assert(a[m] == b[m]);
            }
        }
        if a == b {
            assert(before_at(a, a, k));
        }
    }
}

/// A name that comes before a second one comes before every name that the
/// second one comes before.
pub proof fn lemma_name_before_is_transitive(a: Seq<u8>, b: Seq<u8>, c: Seq<u8>)
    requires
        name_before(a, b),
        name_before(b, c),
    ensures
        name_before(a, c),
{
    let k = choose|k: int| before_at(a, b, k);
    let m = choose|m: int| before_at(b, c, m);
    if k <= m {
        assert forall|i: int| 0 <= i < k implies a[i] == c[i] by {
            assert(a[i] == b[i]);
            assert(b[i] == c[i]);
        }
        if k < m {
            assert(b[k] == c[k]);
        }
        assert(before_at(a, c, k));
    } else {
        assert forall|i: int| 0 <= i < m implies a[i] == c[i] by {
            assert(a[i] == b[i]);
            assert(b[i] == c[i]);
        }
        assert(a[m] == b[m]);
        assert(before_at(a, c, m));
    }
}

/// What holds of positions that come before one another: the order is strict
/// and carries over.
pub proof fn lemma_comes_before_is_transitive(names: Seq<Vec<u8>>, i: int, j: int, k: int)
    requires
        comes_before(names, i, j),
        comes_before(names, j, k),
    ensures
        comes_before(names, i, k),
{
    let a = names[i]@;
    let b = names[j]@;
    let c = names[k]@;
    if name_before(a, b) && name_before(b, c) {
        lemma_name_before_is_transitive(a, b, c);
    }
}

/// Compares two names byte by byte.
pub fn compare_names(a: &Vec<u8>, b: &Vec<u8>) -> (r: Place)
    ensures
        r == Place::Before <==> name_before(a@, b@),
        r == Place::Same <==> a@ == b@,
        r == Place::After <==> name_before(b@, a@),
{
    let mut k: usize = 0;
    while k < a.len() && k < b.len() && a[k] == b[k]
        invariant
            k <= a@.len(),
            k <= b@.len(),
            forall|i: int| 0 <= i < k ==> a@[i] == b@[i],
        decreases a.len() - k,
    {
        k += 1;
    }
    proof {
        lemma_name_before_is_strict(a@, b@);
        lemma_name_before_is_strict(b@, a@);
    }
    if k == a.len() && k == b.len() {
        assert(a@ =~= b@);
        Place::Same
    } else if k == a.len() {
        assert(before_at(a@, b@, k as int));
        Place::Before
    } else if k == b.len() {
        assert(before_at(b@, a@, k as int));
        Place::After
    } else if a[k] < b[k] {
        assert(before_at(a@, b@, k as int));
        Place::Before
    } else {
        assert(before_at(b@, a@, k as int));
        Place::After
    }
}

/// Whether the name at position `i` comes before the name at position `j`.
pub fn position_before(names: &Vec<Vec<u8>>, i: usize, j: usize) -> (r: bool)
    requires
        i < names@.len(),
        j < names@.len(),
    ensures
        r == comes_before(names@, i as int, j as int),
        !r && i != j ==> comes_before(names@, j as int, i as int),
{
    match compare_names(&names[i], &names[j]) {
        Place::Before => true,
        Place::Same => i < j,
        Place::After => false,
    }
}

/// Whether `chosen` lists the positions of the names between `start` and
/// `end` in the order of their names.
pub open spec fn is_range_of(names: Seq<Vec<u8>>, start: Seq<u8>, end: Seq<u8>, chosen: Seq<usize>) -> bool {
    &&& forall|k: int| 0 <= k < chosen.len() ==> #[trigger] chosen[k] < names.len()
    &&& forall|p: usize|
        p < names.len() ==> (#[trigger] chosen.contains(p) <==> lies_between(names[p as int]@, start, end))
    &&& forall|a: int, b: int|
        0 <= a < b < chosen.len() ==> comes_before(names, #[trigger] chosen[a] as int, #[trigger] chosen[b] as int)
}

/// The positions of the names that lie between `start` and `end`, both
/// included, in the order of the names; equal names keep their order.
pub fn names_in_range(names: &Vec<Vec<u8>>, start: &Vec<u8>, end: &Vec<u8>) -> (chosen: Vec<usize>)
    ensures
        is_range_of(names@, start@, end@, chosen@),
{
    let mut chosen: Vec<usize> = Vec::new();
    let mut p: usize = 0;
    while p < names.len()
        invariant
            p <= names@.len(),
            forall|k: int| 0 <= k < chosen@.len() ==> #[trigger] chosen@[k] < p,
            forall|q: usize|
                q < p ==> (#[trigger] chosen@.contains(q) <==> lies_between(names@[q as int]@, start@, end@)),
            forall|a: int, b: int| 0 <= a < b < chosen@.len() ==> #[trigger] chosen@[a] != #[trigger] chosen@[b],
        decreases names.len() - p,
    {
        let ghost before = chosen@;
        let low = compare_names(&names[p], start);
        let high = compare_names(end, &names[p]);
        let inside = low != Place::Before && high != Place::Before;
        if inside {
            chosen.push(p);
        }
        proof {
            assert forall|q: usize| q < p + 1 implies (#[trigger] chosen@.contains(q) <==> lies_between(
                names@[q as int]@,
                start@,
                end@,
            )) by {
                if before.contains(q) {
                    let k = choose|k: int| 0 <= k < before.len() && before[k] == q;
                    assert(chosen@[k] == q);
                }
                if chosen@.contains(q) {
                    let k = choose|k: int| 0 <= k < chosen@.len() && chosen@[k] == q;
                    if k < before.len() {
                        assert(before[k] == q);
                    }
                }
                if inside {
                    assert(chosen@[before.len() as int] == p);
                }
            }
        }
        p += 1;
    }
    let count: usize = chosen.len();
    let ghost unsorted = chosen@;
    let mut i: usize = 1;
    while i < count
        invariant
            1 <= i,
            count == chosen@.len(),
            forall|k: int| 0 <= k < chosen@.len() ==> #[trigger] chosen@[k] < names@.len(),
            forall|q: usize| #[trigger] chosen@.contains(q) <==> unsorted.contains(q),
            forall|a: int, b: int| 0 <= a < b < chosen@.len() ==> #[trigger] chosen@[a] != #[trigger] chosen@[b],
            forall|a: int, b: int|
                0 <= a < b < i && b < count ==> comes_before(
                    names@,
                    #[trigger] chosen@[a] as int,
                    #[trigger] chosen@[b] as int,
                ),
        decreases count - i,
    {
        let mut j: usize = i;
        while j > 0 && position_before(names, chosen[j], chosen[j - 1])
            invariant
                j <= i,
                i < count,
                count == chosen@.len(),
                forall|k: int| 0 <= k < chosen@.len() ==> #[trigger] chosen@[k] < names@.len(),
                forall|q: usize| #[trigger] chosen@.contains(q) <==> unsorted.contains(q),
                forall|a: int, b: int|
                    0 <= a < b < chosen@.len() ==> #[trigger] chosen@[a] != #[trigger] chosen@[b],
                forall|a: int, b: int|
                    0 <= a < b <= i && a != j && b != j ==> comes_before(
                        names@,
                        #[trigger] chosen@[a] as int,
                        #[trigger] chosen@[b] as int,
                    ),
                forall|b: int|
                    j < b <= i ==> comes_before(names@, chosen@[j as int] as int, #[trigger] chosen@[b] as int),
            decreases j,
        {
            let ghost old_chosen = chosen@;
            let moving: usize = chosen[j];
            let resting: usize = chosen[j - 1];
            chosen.set(j - 1, moving);
            chosen.set(j, resting);
            proof {
                assert forall|q: usize| #[trigger] chosen@.contains(q) <==> unsorted.contains(q) by {
                    if old_chosen.contains(q) {
                        let k = choose|k: int| 0 <= k < old_chosen.len() && old_chosen[k] == q;
                        if k == j {
                            assert(chosen@[j - 1] == q);
                        } else if k == j - 1 {
                            assert(chosen@[j as int] == q);
                        } else {
                            assert(chosen@[k] == q);
                        }
                    }
                    if chosen@.contains(q) {
                        let k = choose|k: int| 0 <= k < chosen@.len() && chosen@[k] == q;
                        if k == j {
                            assert(old_chosen[j - 1] == q);
                        } else if k == j - 1 {
                            assert(old_chosen[j as int] == q);
                        } else {
                            assert(old_chosen[k] == q);
                        }
                    }
                }
                assert forall|a: int, b: int| 0 <= a < b <= i && a != j - 1 && b != j - 1 implies comes_before(
                    names@,
                    #[trigger] chosen@[a] as int,
                    #[trigger] chosen@[b] as int,
                ) by {
                    let from_a = if a == j { j - 1 } else { a };
                    let from_b = if b == j { j - 1 } else { b };
                    assert(chosen@[a] == old_chosen[from_a]);
                    assert(chosen@[b] == old_chosen[from_b]);
                    assert(comes_before(names@, old_chosen[from_a] as int, old_chosen[from_b] as int));
                }
                assert forall|b: int| j - 1 < b <= i implies comes_before(
                    names@,
                    chosen@[j - 1] as int,
                    #[trigger] chosen@[b] as int,
                ) by {
                    if b > j {
                        assert(chosen@[b] == old_chosen[b]);
                    }
                }
            }
            j -= 1;
        }
        proof {
            assert forall|a: int, b: int| 0 <= a < b < i + 1 && b < count implies comes_before(
                names@,
                #[trigger] chosen@[a] as int,
                #[trigger] chosen@[b] as int,
            ) by {
                if a == j {
                } else if b == j {
                    assert(chosen@[j - 1] != chosen@[j as int]);
                    assert(comes_before(names@, chosen@[j - 1] as int, chosen@[j as int] as int));
                    if a < j - 1 {
                        assert(comes_before(names@, chosen@[a] as int, chosen@[j - 1] as int));
                        lemma_comes_before_is_transitive(
                            names@,
                            chosen@[a] as int,
                            chosen@[j - 1] as int,
                            chosen@[j as int] as int,
                        );
                    }
                }
            }
        }
        i += 1;
    }
    chosen
}

} // verus!
