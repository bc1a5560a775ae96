//! Rank-based percentiles of a sorted sequence of integers.
//!
//! The rank rule is nearest-rank with truncation: of `n` values the
//! percentile `p` is the value at index `floor(p * (n - 1) / 100)`. No
//! two values are ever averaged.

use crate::order::{ascending, Ranked};
use vstd::prelude::*;

verus! {

/// The index that the percentile `p` selects among `n` sorted values.
pub open spec fn rank_index(n: nat, p: nat) -> int {
    (p * (n - 1)) / 100
}

/// The percentile `p` of the sorted sequence `s`.
pub open spec fn percentile_of(s: Seq<i64>, p: nat) -> i64 {
    s[rank_index(s.len(), p)]
}

/// The values of `s` as mathematical integers.
pub open spec fn ints(s: Seq<i64>) -> Seq<int> {
    s.map_values(|x: i64| x as int)
}

/// The rank index lies inside the sequence.
pub proof fn lemma_rank_index_in_range(n: nat, p: nat)
    requires
        n > 0,
        p <= 100,
    ensures
        0 <= rank_index(n, p) < n,
        rank_index(n, 0) == 0,
        rank_index(n, 100) == n - 1,
{
    let m = n - 1;
    assert(0 <= (p * m) / 100 <= m) by (nonlinear_arith)
        requires
            0 <= m,
            0 <= p <= 100,
    ;
}

/// The percentile `p` of `sorted_values`, by the nearest-rank rule.
pub fn percentile(sorted_values: &Vec<i64>, p: u8) -> (value: i64)
    requires
        sorted_values.len() > 0,
        ascending(sorted_values@),
        p <= 100,
    ensures
        value == percentile_of(sorted_values@, p as nat),
{
    let last: usize = sorted_values.len() - 1;
    let hundreds: usize = last / 100;
    let rest: usize = last % 100;
    let percent: usize = p as usize;
    proof {
        lemma_rank_index_in_range(sorted_values@.len(), p as nat);
        assert((percent * last) / 100 == hundreds * percent + (rest * percent) / 100
            && hundreds * percent <= last && rest * percent <= 10000) by (nonlinear_arith)
            requires
                last == 100 * hundreds + rest,
                0 <= rest < 100,
                0 <= hundreds,
                0 <= percent <= 100,
        ;
    }
    let index: usize = hundreds * percent + (rest * percent) / 100;
    sorted_values[index]
}

/// The 50th percentile of `sorted_values`.
pub fn p50(sorted_values: &Vec<i64>) -> (value: i64)
    requires
        sorted_values.len() > 0,
        ascending(sorted_values@),
    ensures
        value == percentile_of(sorted_values@, 50),
{
    percentile(sorted_values, 50)
}

/// The 99th percentile of `sorted_values`.
pub fn p99(sorted_values: &Vec<i64>) -> (value: i64)
    requires
        sorted_values.len() > 0,
        ascending(sorted_values@),
    ensures
        value == percentile_of(sorted_values@, 99),
{
    percentile(sorted_values, 99)
}

/// The 100th percentile of a sorted sequence is its largest value, and the
/// 0th percentile its smallest.
pub proof fn lemma_percentile_extremes(s: Seq<i64>)
    requires
        s.len() > 0,
        ascending(s),
    ensures
        percentile_of(s, 100) == ints(s).max(),
        percentile_of(s, 0) == ints(s).min(),
{
    lemma_rank_index_in_range(s.len(), 0);
    lemma_rank_index_in_range(s.len(), 100);
    let values = ints(s);
    values.max_ensures();
    values.min_ensures();
    let last = s.len() - 1;
    // the largest value stands somewhere, and what stands last is no smaller
    let top = choose|i: int| 0 <= i < values.len() && values[i] == values.max();
    assert(s[top].rank() <= s[last].rank());
    assert(values[last] == s[last]);
    // the smallest value stands somewhere, and what stands first is no larger
    let bottom = choose|i: int| 0 <= i < values.len() && values[i] == values.min();
    assert(s[0].rank() <= s[bottom].rank());
    assert(values[0] == s[0]);
}

/// Every percentile of a sorted sequence is one of its values, with all
/// values before its index at most as large and all after at least as large.
pub proof fn lemma_percentile_splits(s: Seq<i64>, p: nat)
    requires
        s.len() > 0,
        ascending(s),
        p <= 100,
    ensures
        s.contains(percentile_of(s, p)),
        forall|i: int| 0 <= i <= rank_index(s.len(), p) ==> s[i] <= percentile_of(s, p),
        forall|i: int| rank_index(s.len(), p) <= i < s.len() ==> percentile_of(s, p) <= s[i],
{
    lemma_rank_index_in_range(s.len(), p);
    let k = rank_index(s.len(), p);
    assert forall|i: int| 0 <= i < s.len() implies (i <= k ==> s[i] <= s[k]) && (k <= i ==> s[k]
        <= s[i]) by {
        // ascending order, read at `i` and at the rank index
        assert(i <= k ==> s[i].rank() <= s[k].rank());
        assert(k <= i ==> s[k].rank() <= s[i].rank());
    }
}

} // verus!
