//! Nearest-rank percentiles with a minimum sample count.

use vstd::prelude::*;

verus! {

/// A coordinate with fewer samples than this has no percentile.
pub const MIN_SAMPLES: usize = 5;

/// The rank that a level selects among `len` ascending samples: the whole
/// part of `len * level / 100`.
pub open spec fn rank_index(len: nat, level: nat) -> nat {
    (len * level) / 100
}

/// Below level 100 the selected rank is a valid position in a non-empty
/// sample list.
pub proof fn lemma_rank_index_in_range(len: nat, level: nat)
    requires
        0 < len,
        level < 100,
    ensures
        rank_index(len, level) < len,
{
    assert(len * level <= len * 99) by (nonlinear_arith)
        requires
            level <= 99,
    ;
    assert(len * 99 < len * 100) by (nonlinear_arith)
        requires
            0 < len,
    ;
}

/// Computes `rank_index` without overflow for every length.
pub fn percentile_index(len: usize, level: usize) -> (idx: usize)
    requires
        level <= 100,
    ensures
        idx == rank_index(len as nat, level as nat),
        0 < len && level < 100 ==> idx < len,
{
    let hundreds: usize = len / 100;
    let rest: usize = len % 100;
    proof {
        let l = len as int;
        let v = level as int;
        let q = hundreds as int;
        let r = rest as int;
        assert(l == 100 * q + r);
        assert(q * v <= q * 100) by (nonlinear_arith)
            requires
                0 <= q,
                0 <= v <= 100,
        ;
        assert(r * v <= 99 * 100) by (nonlinear_arith)
            requires
                0 <= r <= 99,
                0 <= v <= 100,
        ;
        assert(l * v == 100 * (q * v) + r * v) by (nonlinear_arith)
            requires
                l == 100 * q + r,
        ;
        assert((100 * (q * v) + r * v) / 100 == q * v + (r * v) / 100) by {
            vstd::arithmetic::div_mod::lemma_fundamental_div_mod_converse(
                100 * (q * v) + r * v,
                100,
                q * v + (r * v) / 100,
                (r * v) % 100,
            );
        }
        if 0 < len && level < 100 {
            lemma_rank_index_in_range(len as nat, level as nat);
        }
    }
    hundreds * level + rest * level / 100
}

/// The order in which samples are ranked.
pub open spec fn ascending() -> spec_fn(i64, i64) -> bool {
    |a: i64, b: i64| a <= b
}

/// No sample is followed by a smaller one.
pub open spec fn is_ascending(samples: Seq<i64>) -> bool {
    forall|i: int, j: int| 0 <= i < j < samples.len() ==> samples[i] <= samples[j]
}

/// The samples in ascending order.
pub open spec fn ranked(samples: Seq<i64>) -> Seq<i64> {
    samples.sort_by(ascending())
}

/// The percentile of `samples` at `level`: nothing below `MIN_SAMPLES`
/// samples, else the sample at `rank_index` among the ranked samples.
pub open spec fn percentile_of(samples: Seq<i64>, level: nat) -> Option<i64> {
    if samples.len() < MIN_SAMPLES {
        None
    } else {
        Some(ranked(samples)[rank_index(samples.len(), level) as int])
    }
}

/// Ranking rearranges the samples and leaves them ascending.
pub proof fn lemma_ranked_properties(samples: Seq<i64>)
    ensures
        ranked(samples).to_multiset() == samples.to_multiset(),
        ranked(samples).len() == samples.len(),
        is_ascending(ranked(samples)),
{
    samples.lemma_sort_by_ensures(ascending());
    samples.to_multiset_ensures();
    ranked(samples).to_multiset_ensures();
    let r = ranked(samples);
    assert forall|i: int, j: int| 0 <= i < j < r.len() implies r[i] <= r[j] by {
        assert(ascending()(r[i], r[j]));
    }
}

/// An ascending rearrangement of the samples is their ranking: there is
/// only one.
pub proof fn lemma_ranked_unique(samples: Seq<i64>, sorted: Seq<i64>)
    requires
        is_ascending(sorted),
        sorted.to_multiset() == samples.to_multiset(),
    ensures
        sorted == ranked(samples),
{
    samples.lemma_sort_by_ensures(ascending());
    assert(vstd::relations::sorted_by(sorted, ascending())) by {
        assert forall|i: int, j: int| 0 <= i < j < sorted.len() implies #[trigger] ascending()(
            sorted[i],
            sorted[j],
        ) by {}
    }
    vstd::seq_lib::lemma_sorted_unique(sorted, ranked(samples), ascending());
}

/// Ranking the samples beforehand changes no percentile.
pub proof fn lemma_ranking_keeps_percentile(samples: Seq<i64>, level: nat)
    ensures
        percentile_of(ranked(samples), level) == percentile_of(samples, level),
{
    lemma_ranked_properties(samples);
    lemma_ranked_unique(ranked(samples), ranked(samples));
}

/// The percentile depends on which samples there are and how often each
/// occurs, not on the order they come in.
pub proof fn lemma_percentile_ignores_order(first: Seq<i64>, second: Seq<i64>, level: nat)
    requires
        first.to_multiset() == second.to_multiset(),
    ensures
        percentile_of(first, level) == percentile_of(second, level),
{
    lemma_ranked_properties(first);
    lemma_ranked_properties(second);
    lemma_ranked_unique(second, ranked(first));
}

/// A percentile is one of the samples: nothing is interpolated.
pub proof fn lemma_percentile_is_sample(samples: Seq<i64>, level: nat, value: i64)
    requires
        level < 100,
        percentile_of(samples, level) == Some(value),
    ensures
        samples.contains(value),
{
    lemma_ranked_properties(samples);
    lemma_rank_index_in_range(samples.len(), level);
    let r = ranked(samples);
    let idx = rank_index(samples.len(), level) as int;
    assert(r[idx] == value);
    assert(r.contains(value));
    vstd::seq_lib::to_multiset_contains(r, value);
    vstd::seq_lib::to_multiset_contains(samples, value);
}

/// Fewer than `MIN_SAMPLES` samples have no percentile, at any level.
pub proof fn lemma_too_few_samples(samples: Seq<i64>, level: nat)
    requires
        samples.len() < MIN_SAMPLES,
    ensures
        percentile_of(samples, level) is None,
{
}

/// Merges two ascending lists into one.
fn merge(left: &Vec<i64>, right: &Vec<i64>) -> (out: Vec<i64>)
    requires
        is_ascending(left@),
        is_ascending(right@),
    ensures
        is_ascending(out@),
        out@.to_multiset() == left@.to_multiset().add(right@.to_multiset()),
{
    let mut out: Vec<i64> = Vec::new();
    let mut i: usize = 0;
    let mut j: usize = 0;
    proof {
        broadcast use vstd::multiset::group_multiset_axioms;

        let none = Seq::<i64>::empty();
        assert(left@.take(0) =~= none);
        assert(right@.take(0) =~= none);
        assert(out@ =~= none);
        none.to_multiset_ensures();
        assert(none.to_multiset() =~= vstd::multiset::Multiset::<i64>::empty());
        assert(none.to_multiset() =~= none.to_multiset().add(none.to_multiset()));
    }
    while i < left.len() || j < right.len()
        invariant
            i <= left.len(),
            j <= right.len(),
            is_ascending(left@),
            is_ascending(right@),
            is_ascending(out@),
            out@.to_multiset() == left@.take(i as int).to_multiset().add(
                right@.take(j as int).to_multiset(),
            ),
            forall|k: int| 0 <= k < out.len() && i < left.len() ==> out[k] <= left[i as int],
            forall|k: int| 0 <= k < out.len() && j < right.len() ==> out[k] <= right[j as int],
        decreases left.len() - i + right.len() - j,
    {
        let take_left: bool = if i >= left.len() {
            false
        } else if j >= right.len() {
            true
        } else {
            left[i] <= right[j]
        };
        let ghost before = out@;
        if take_left {
            let x: i64 = left[i];
            out.push(x);
            proof {
                assert(left@.take(i + 1) =~= left@.take(i as int).push(x));
                vstd::seq_lib::to_multiset_build(left@.take(i as int), x);
                vstd::seq_lib::to_multiset_build(before, x);
                assert(out@.to_multiset() =~= left@.take(i + 1).to_multiset().add(
                    right@.take(j as int).to_multiset(),
                ));
            }
            i = i + 1;
        } else {
            let x: i64 = right[j];
            out.push(x);
            proof {
                assert(right@.take(j + 1) =~= right@.take(j as int).push(x));
                vstd::seq_lib::to_multiset_build(right@.take(j as int), x);
                vstd::seq_lib::to_multiset_build(before, x);
                assert(out@.to_multiset() =~= left@.take(i as int).to_multiset().add(
                    right@.take(j + 1).to_multiset(),
                ));
            }
            j = j + 1;
        }
    }
    proof {
        assert(left@.take(i as int) =~= left@);
        assert(right@.take(j as int) =~= right@);
    }
    out
}

/// An ascending copy of `samples[lo..hi]`.
fn sorted_range(samples: &Vec<i64>, lo: usize, hi: usize) -> (out: Vec<i64>)
    requires
        lo <= hi <= samples.len(),
    ensures
        is_ascending(out@),
        out@.to_multiset() == samples@.subrange(lo as int, hi as int).to_multiset(),
    decreases hi - lo,
{
    if hi - lo <= 1 {
        let mut out: Vec<i64> = Vec::new();
        if lo < hi {
            out.push(samples[lo]);
        }
        proof {
            assert(out@ =~= samples@.subrange(lo as int, hi as int));
        }
        out
    } else {
        let mid: usize = lo + (hi - lo) / 2;
        let left = sorted_range(samples, lo, mid);
        let right = sorted_range(samples, mid, hi);
        let out = merge(&left, &right);
        proof {
            let a = samples@.subrange(lo as int, mid as int);
            let b = samples@.subrange(mid as int, hi as int);
            assert(a + b =~= samples@.subrange(lo as int, hi as int));
            vstd::seq_lib::lemma_multiset_commutative(a, b);
        }
        out
    }
}

/// Ranks the samples: an ascending copy of them.
pub fn sort_samples(samples: &Vec<i64>) -> (sorted: Vec<i64>)
    ensures
        sorted@ == ranked(samples@),
        sorted.len() == samples.len(),
{
    let sorted = sorted_range(samples, 0, samples.len());
    proof {
        assert(samples@.subrange(0, samples.len() as int) =~= samples@);
        lemma_ranked_unique(samples@, sorted@);
        lemma_ranked_properties(samples@);
    }
    sorted
}

/// The percentile at `level` of samples that are ranked already.
pub fn percentile_of_ranked(sorted: &Vec<i64>, level: usize) -> (value: Option<i64>)
    requires
        is_ascending(sorted@),
        level < 100,
    ensures
        value == percentile_of(sorted@, level as nat),
{
    if sorted.len() < MIN_SAMPLES {
        None
    } else {
        let idx: usize = percentile_index(sorted.len(), level);
        proof {
            lemma_ranked_unique(sorted@, sorted@);
        }
        Some(sorted[idx])
    }
}

/// The percentile at `level` of the samples at one coordinate.
///
/// With fewer than `MIN_SAMPLES` samples there is none. Otherwise it is the
/// sample at position `len * level / 100`, rounded down, among the samples
/// in ascending order: an order statistic, with no interpolation.
pub fn percentile(samples: &Vec<i64>, level: usize) -> (value: Option<i64>)
    requires
        level < 100,
    ensures
        value == percentile_of(samples@, level as nat),
{
    if samples.len() < MIN_SAMPLES {
        None
    } else {
        let sorted = sort_samples(samples);
        proof {
            lemma_ranked_properties(samples@);
            lemma_ranking_keeps_percentile(samples@, level as nat);
        }
        percentile_of_ranked(&sorted, level)
    }
}

} // verus!
