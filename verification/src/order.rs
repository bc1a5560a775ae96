//! Values ordered by an integer rank, and sorting by that rank.

use vstd::prelude::*;
use vstd::relations::{sorted_by, total_ordering};
use vstd::seq_lib::lemma_sorted_unique;

verus! {

/// A value with a place on the integer line. Values are put in order by
/// their rank, and two values with the same rank are the same value.
pub trait Ranked: Copy {
    /// The integer by which the value is ordered.
    spec fn rank(&self) -> int;

    /// Equal ranks mean equal values.
    proof fn rank_is_injective(a: Self, b: Self)
        requires
            a.rank() == b.rank(),
        ensures
            a == b,
    ;

    /// Whether `self` comes before `other`, or is equal to it.
    fn precedes(&self, other: &Self) -> (b: bool)
        ensures
            b == (self.rank() <= other.rank()),
    ;
}

impl Ranked for i64 {
    open spec fn rank(&self) -> int {
        *self as int
    }

    proof fn rank_is_injective(a: Self, b: Self) {
    }

    fn precedes(&self, other: &Self) -> (b: bool) {
        *self <= *other
    }
}

/// The order on `T` that its ranks give.
pub open spec fn by_rank<T: Ranked>() -> spec_fn(T, T) -> bool {
    |a: T, b: T| a.rank() <= b.rank()
}

/// Whether `s` is in ascending order of rank (neighbours may be equal).
pub open spec fn ascending<T: Ranked>(s: Seq<T>) -> bool {
    forall|i: int, j: int| 0 <= i <= j < s.len() ==> s[i].rank() <= s[j].rank()
}

/// The values of `s` rearranged into ascending order.
pub open spec fn sorted<T: Ranked>(s: Seq<T>) -> Seq<T> {
    s.sort_by(by_rank::<T>())
}

/// The median of `s`: the middle value of `s` in ascending order. Of two
/// middle values it is the higher one; values are never averaged.
pub open spec fn median_of<T: Ranked>(s: Seq<T>) -> T {
    sorted(s)[s.len() as int / 2]
}

/// Ordering by rank is a total order.
pub proof fn lemma_by_rank_total<T: Ranked>()
    ensures
        total_ordering(by_rank::<T>()),
{
    let leq = by_rank::<T>();
    assert forall|x: T, y: T| #[trigger] leq(x, y) && #[trigger] leq(y, x) implies x == y by {
        T::rank_is_injective(x, y);
    }
}

/// `sorted(s)` is the one ascending rearrangement of `s`.
pub proof fn lemma_sorted_is_unique<T: Ranked>(s: Seq<T>, t: Seq<T>)
    requires
        ascending(t),
        t.to_multiset() == s.to_multiset(),
    ensures
        t == sorted(s),
{
    let leq = by_rank::<T>();
    lemma_by_rank_total::<T>();
    s.lemma_sort_by_ensures(leq);
    lemma_sorted_unique(t, sorted(s), leq);
}

/// `sorted(s)` is ascending and holds the values of `s`, each as often as `s`
/// holds it.
pub proof fn lemma_sorted_rearranges<T: Ranked>(s: Seq<T>)
    ensures
        ascending(sorted(s)),
        sorted(s).to_multiset() == s.to_multiset(),
        sorted(s).len() == s.len(),
{
    let leq = by_rank::<T>();
    lemma_by_rank_total::<T>();
    s.lemma_sort_by_ensures(leq);
    let t = sorted(s);
    assert forall|i: int, j: int| 0 <= i <= j < t.len() implies t[i].rank() <= t[j].rank() by {
        if i < j {
            assert(leq(t[i], t[j]));
        }
    }
    vstd::seq_lib::to_multiset_len(s);
    vstd::seq_lib::to_multiset_len(t);
}

/// A sequence that is ascending already is its own sorted rearrangement, so
/// sorting twice gives what sorting once gives.
pub proof fn lemma_sorted_is_idempotent<T: Ranked>(s: Seq<T>)
    ensures
        ascending(s) ==> sorted(s) == s,
        sorted(sorted(s)) == sorted(s),
        median_of(sorted(s)) == median_of(s),
{
    if ascending(s) {
        lemma_sorted_is_unique(s, s);
    }
    lemma_sorted_rearranges(s);
    lemma_sorted_is_unique(sorted(s), sorted(s));
}

/// The order in which values are given does not matter: sequences that hold
/// the same values equally often have the same ascending order and median.
pub proof fn lemma_sorted_ignores_order<T: Ranked>(s: Seq<T>, t: Seq<T>)
    requires
        s.to_multiset() == t.to_multiset(),
    ensures
        sorted(s) == sorted(t),
        median_of(s) == median_of(t),
{
    lemma_sorted_rearranges(s);
    lemma_sorted_rearranges(t);
    lemma_sorted_is_unique(t, sorted(s));
}

/// The median is one of the values, and it splits them: the values before
/// the middle place of the ascending order are at most as large, those after
/// it at least as large.
pub proof fn lemma_median_splits<T: Ranked>(s: Seq<T>)
    requires
        s.len() > 0,
    ensures
        s.contains(median_of(s)),
        forall|i: int| 0 <= i <= s.len() as int / 2 ==> sorted(s)[i].rank() <= median_of(s).rank(),
        forall|i: int|
            s.len() as int / 2 <= i < s.len() ==> median_of(s).rank() <= sorted(s)[i].rank(),
{
    broadcast use vstd::seq_lib::group_to_multiset_ensures;

    lemma_sorted_rearranges(s);
    let t = sorted(s);
    let k = s.len() as int / 2;
    // the median occurs in the ascending order, so it occurs in `s`
    assert(t.to_multiset().count(t[k]) > 0);
}

/// Exchanging two places of a sequence keeps what it holds.
proof fn lemma_exchange_keeps_multiset<T>(s: Seq<T>, i: int, j: int)
    requires
        0 <= i < s.len(),
        0 <= j < s.len(),
    ensures
        s.update(i, s[j]).update(j, s[i]).to_multiset() == s.to_multiset(),
{
    broadcast use vstd::seq_lib::group_to_multiset_ensures;
    broadcast use vstd::multiset::group_multiset_axioms;

    let mid = s.update(i, s[j]);
    vstd::seq_lib::to_multiset_update(s, i, s[j]);
    vstd::seq_lib::to_multiset_update(mid, j, s[i]);
}

/// Rearranges `values` into ascending order of rank, by insertion.
pub fn sort<T: Ranked>(values: &mut Vec<T>)
    ensures
        final(values)@ == sorted(old(values)@),
        ascending(final(values)@),
        final(values)@.len() == old(values)@.len(),
{
    let ghost initial = values@;
    let n = values.len();
    let mut i: usize = 0;
    while i < n
        invariant
            values.len() == n,
            i <= n,
            forall|a: int, b: int| 0 <= a <= b < i ==> values@[a].rank() <= values@[b].rank(),
            values@.to_multiset() == initial.to_multiset(),
        decreases n - i,
    {
        let mut j: usize = i;
        while j > 0 && !values[j - 1].precedes(&values[j])
            invariant
                values.len() == n,
                j <= i < n,
                values@.to_multiset() == initial.to_multiset(),
                forall|a: int, b: int|
                    0 <= a <= b <= i && a != j && b != j ==> values@[a].rank() <= values@[b].rank(),
                forall|b: int| j < b <= i ==> values@[j as int].rank() <= values@[b].rank(),
            decreases j,
        {
            let ghost before = values@;
            let left = values[j - 1];
            let right = values[j];
            values[j - 1] = right;
            values[j] = left;
            proof {
                lemma_exchange_keeps_multiset(before, j - 1, j as int);
            }
            j -= 1;
        }
        i += 1;
    }
    proof {
        lemma_sorted_is_unique(initial, values@);
    }
}

/// The element in the middle of `sorted_values`: the one at `len / 2`, so of
/// two middle elements the higher one.
pub fn middle<T: Ranked>(sorted_values: &Vec<T>) -> (value: T)
    requires
        sorted_values.len() > 0,
        ascending(sorted_values@),
    ensures
        value == sorted_values@[sorted_values@.len() as int / 2],
        value == median_of(sorted_values@),
{
    proof {
        lemma_sorted_is_idempotent(sorted_values@);
    }
    sorted_values[sorted_values.len() / 2]
}

} // verus!
