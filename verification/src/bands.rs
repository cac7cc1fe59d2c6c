//! Percentile bands over samples that carry a coordinate.
//!
//! A coordinate is a position on the axis along which a band runs: a
//! calendar day, or a lead time in days. All samples that share a coordinate
//! form one group, and a band holds, for every group that is large enough,
//! the percentile of that group.

use crate::percentile::{
    is_ascending, lemma_percentile_ignores_order, lemma_percentile_is_sample,
    lemma_ranked_properties,
    lemma_ranking_keeps_percentile, percentile_of, percentile_of_ranked, ranked, sort_samples,
    MIN_SAMPLES,
};
use vstd::prelude::*;

verus! {

/// One value at one coordinate.
#[derive(Clone, Copy, Debug, PartialEq, Eq, Structural)]
pub struct Sample {
    pub coordinate: i64,
    pub value: i64,
}

/// The samples that lie at `coordinate`.
pub open spec fn at_coordinate(coordinate: i64) -> spec_fn(Sample) -> bool {
    |s: Sample| s.coordinate == coordinate
}

/// The value that a sample carries.
pub open spec fn value_of() -> spec_fn(Sample) -> i64 {
    |s: Sample| s.value
}

/// The values of the samples at `coordinate`, in the order of `samples`.
pub open spec fn samples_at(samples: Seq<Sample>, coordinate: i64) -> Seq<i64> {
    samples.filter(at_coordinate(coordinate)).map_values(value_of())
}

/// Some entry of the band lies at `coordinate`.
pub open spec fn has_coordinate(band: Seq<Sample>, coordinate: i64) -> bool {
    exists|i: int| 0 <= i < band.len() && #[trigger] band[i].coordinate == coordinate
}

/// Every entry lies at a greater coordinate than the entries before it.
pub open spec fn strictly_ascending(band: Seq<Sample>) -> bool {
    forall|i: int, j: int|
        0 <= i < j < band.len() ==> #[trigger] band[i].coordinate < #[trigger] band[j].coordinate
}

/// `band` is the percentile band of `samples` at `level`: it runs by
/// ascending coordinate, holds exactly the coordinates with at least
/// `MIN_SAMPLES` samples, and gives at each the percentile of the samples
/// there.
pub open spec fn is_band(samples: Seq<Sample>, level: nat, band: Seq<Sample>) -> bool {
    &&& strictly_ascending(band)
    &&& forall|x: i64| #[trigger]
        has_coordinate(band, x) <==> samples_at(samples, x).len() >= MIN_SAMPLES
    &&& forall|i: int|
        0 <= i < band.len() ==> Some((#[trigger] band[i]).value) == percentile_of(
            samples_at(samples, band[i].coordinate),
            level,
        )
}

/// The four levels at which bands are drawn.
pub open spec fn band_levels() -> Seq<usize> {
    seq![20usize, 40usize, 60usize, 80usize]
}

/// The samples at one coordinate, ranked.
struct Group {
    coordinate: i64,
    ranked: Vec<i64>,
}

/// `groups` holds every coordinate of `samples` once, by ascending
/// coordinate, each with its samples ranked.
spec fn is_grouping(samples: Seq<Sample>, groups: Seq<Group>) -> bool {
    &&& forall|i: int, j: int|
        0 <= i < j < groups.len() ==> #[trigger] groups[i].coordinate
            < #[trigger] groups[j].coordinate
    &&& forall|x: i64| #[trigger]
        samples_at(samples, x).len() > 0 ==> exists|i: int|
            0 <= i < groups.len() && #[trigger] groups[i].coordinate == x
    &&& forall|i: int|
        0 <= i < groups.len() ==> (#[trigger] groups[i]).ranked@ == ranked(
            samples_at(samples, groups[i].coordinate),
        )
}

/// `entry` lies at the coordinate of one of the first `n` groups, and that
/// group is large enough for a percentile.
spec fn from_group(groups: Seq<Group>, n: int, entry: Sample) -> bool {
    exists|k: int|
        0 <= k < n && k < groups.len() && #[trigger] groups[k].coordinate == entry.coordinate
            && groups[k].ranked.len() >= MIN_SAMPLES
}

/// A coordinate has samples exactly if some sample lies at it.
proof fn lemma_samples_at_nonempty(samples: Seq<Sample>, x: i64)
    ensures
        samples_at(samples, x).len() > 0 <==> exists|i: int|
            0 <= i < samples.len() && #[trigger] samples[i].coordinate == x,
{
    let kept = samples.filter(at_coordinate(x));
    if kept.len() > 0 {
        samples.lemma_filter_pred(at_coordinate(x), 0);
        assert(kept.contains(kept[0]));
        samples.lemma_filter_contains_rev(at_coordinate(x), kept[0]);
        let i = choose|i: int| 0 <= i < samples.len() && samples[i] == kept[0];
        assert(samples[i].coordinate == x);
    }
    if exists|i: int| 0 <= i < samples.len() && #[trigger] samples[i].coordinate == x {
        let i = choose|i: int| 0 <= i < samples.len() && #[trigger] samples[i].coordinate == x;
        samples.lemma_filter_contains(at_coordinate(x), i);
    }
}

/// Every value among the samples at a coordinate belongs to a sample that
/// lies there.
pub proof fn lemma_samples_at_contains(samples: Seq<Sample>, x: i64, value: i64)
    requires
        samples_at(samples, x).contains(value),
    ensures
        samples.contains(Sample { coordinate: x, value }),
{
    let kept = samples.filter(at_coordinate(x));
    let values = samples_at(samples, x);
    let m = choose|m: int| 0 <= m < values.len() && values[m] == value;
    assert(kept[m].value == value);
    samples.lemma_filter_pred(at_coordinate(x), m);
    assert(kept.contains(kept[m]));
    samples.lemma_filter_contains_rev(at_coordinate(x), kept[m]);
    assert(kept[m] == Sample { coordinate: x, value });
}

/// Every entry of a band is one of the samples.
pub proof fn lemma_band_entry_is_sample(
    samples: Seq<Sample>,
    level: nat,
    band: Seq<Sample>,
    i: int,
)
    requires
        level < 100,
        is_band(samples, level, band),
        0 <= i < band.len(),
    ensures
        samples.contains(band[i]),
{
    let entry = band[i];
    lemma_percentile_is_sample(samples_at(samples, entry.coordinate), level, entry.value);
    lemma_samples_at_contains(samples, entry.coordinate, entry.value);
}

/// A coordinate with fewer than `MIN_SAMPLES` samples appears in no band,
/// whatever the level.
pub proof fn lemma_sparse_coordinate_is_absent(
    samples: Seq<Sample>,
    level: nat,
    band: Seq<Sample>,
    x: i64,
)
    requires
        is_band(samples, level, band),
        samples_at(samples, x).len() < MIN_SAMPLES,
    ensures
        !has_coordinate(band, x),
{
}

/// A value occurs among the samples at a coordinate as often as the sample
/// with that coordinate and value occurs among all samples.
proof fn lemma_samples_at_count(samples: Seq<Sample>, x: i64, value: i64)
    ensures
        samples_at(samples, x).to_multiset().count(value) == samples.to_multiset().count(
            Sample { coordinate: x, value },
        ),
    decreases samples.len(),
{
    broadcast use vstd::multiset::group_multiset_axioms;

    if samples.len() == 0 {
        samples.lemma_filter_len(at_coordinate(x));
        samples.to_multiset_ensures();
        samples_at(samples, x).to_multiset_ensures();
    } else {
        let before = samples.drop_last();
        let last = samples.last();
        lemma_samples_at_count(before, x, value);
        assert(samples =~= before.push(last));
        before.lemma_filter_push(last, at_coordinate(x));
        before.filter(at_coordinate(x)).lemma_push_map_commute(value_of(), last);
        vstd::seq_lib::to_multiset_build(before, last);
        if last.coordinate == x {
            assert(samples_at(samples, x) =~= samples_at(before, x).push(last.value));
            vstd::seq_lib::to_multiset_build(samples_at(before, x), last.value);
        } else {
            assert(samples_at(samples, x) =~= samples_at(before, x));
        }
    }
}

/// A band depends on which samples there are and how often each occurs,
/// not on the order they come in: no order of collecting them can change
/// it.
pub proof fn lemma_band_ignores_order(
    first: Seq<Sample>,
    second: Seq<Sample>,
    level: nat,
    band: Seq<Sample>,
)
    requires
        first.to_multiset() == second.to_multiset(),
        is_band(first, level, band),
    ensures
        is_band(second, level, band),
{
    assert forall|x: i64|
        samples_at(first, x).to_multiset() == samples_at(second, x).to_multiset() by {
        assert forall|value: i64|
            samples_at(first, x).to_multiset().count(value) == samples_at(
                second,
                x,
            ).to_multiset().count(value) by {
            lemma_samples_at_count(first, x, value);
            lemma_samples_at_count(second, x, value);
        }
        assert(samples_at(first, x).to_multiset() =~= samples_at(second, x).to_multiset());
    }
    assert forall|x: i64| #[trigger]
        has_coordinate(band, x) <==> samples_at(second, x).len() >= MIN_SAMPLES by {
        samples_at(first, x).to_multiset_ensures();
        samples_at(second, x).to_multiset_ensures();
    }
    assert forall|i: int| 0 <= i < band.len() implies Some((#[trigger] band[i]).value)
        == percentile_of(samples_at(second, band[i].coordinate), level) by {
        lemma_percentile_ignores_order(
            samples_at(first, band[i].coordinate),
            samples_at(second, band[i].coordinate),
            level,
        );
    }
}

/// Samples have one band at a level: whatever order the work was done in,
/// the same entries come out in the same order.
pub proof fn lemma_band_is_unique(
    samples: Seq<Sample>,
    level: nat,
    first: Seq<Sample>,
    second: Seq<Sample>,
)
    requires
        is_band(samples, level, first),
        is_band(samples, level, second),
    ensures
        first == second,
{
    lemma_same_coordinates(first, second);
    assert forall|i: int| 0 <= i < first.len() implies first[i] == second[i] by {
        assert(first[i].coordinate == second[i].coordinate);
        assert(Some(first[i].value) == percentile_of(
            samples_at(samples, first[i].coordinate),
            level,
        ));
        assert(Some(second[i].value) == percentile_of(
            samples_at(samples, second[i].coordinate),
            level,
        ));
    }
    assert(first =~= second);
}

/// Two bands that run by ascending coordinate over the same coordinates
/// have them at the same places.
proof fn lemma_same_coordinates(first: Seq<Sample>, second: Seq<Sample>)
    requires
        strictly_ascending(first),
        strictly_ascending(second),
        forall|x: i64| has_coordinate(first, x) <==> has_coordinate(second, x),
    ensures
        first.len() == second.len(),
        forall|i: int| 0 <= i < first.len() ==> first[i].coordinate == second[i].coordinate,
    decreases first.len(),
{
    if first.len() == 0 {
        if second.len() > 0 {
            assert(has_coordinate(second, second[0].coordinate));
            assert(has_coordinate(first, second[0].coordinate));
        }
    } else {
        let a = first.last();
        assert(has_coordinate(first, a.coordinate));
        assert(has_coordinate(second, a.coordinate));
        let b = second.last();
        assert(has_coordinate(second, b.coordinate));
        assert(has_coordinate(first, b.coordinate));
        let m = choose|m: int| 0 <= m < first.len() && #[trigger] first[m].coordinate == b.coordinate;
        let n = choose|n: int|
            0 <= n < second.len() && #[trigger] second[n].coordinate == a.coordinate;
        assert(a.coordinate == b.coordinate) by {
            if m < first.len() - 1 {
                assert(first[m].coordinate < first[first.len() - 1].coordinate);
            }
            if n < second.len() - 1 {
                assert(second[n].coordinate < second[second.len() - 1].coordinate);
            }
        }
        let f = first.drop_last();
        let s = second.drop_last();
        assert forall|x: i64| has_coordinate(f, x) <==> has_coordinate(s, x) by {
            if has_coordinate(f, x) {
                let k = choose|k: int| 0 <= k < f.len() && #[trigger] f[k].coordinate == x;
                assert(first[k].coordinate == x);
                assert(first[k].coordinate < first[first.len() - 1].coordinate);
                assert(has_coordinate(first, x));
                let q = choose|q: int| 0 <= q < second.len() && #[trigger] second[q].coordinate == x;
                assert(q < second.len() - 1);
                assert(s[q].coordinate == x);
            }
            if has_coordinate(s, x) {
                let k = choose|k: int| 0 <= k < s.len() && #[trigger] s[k].coordinate == x;
                assert(second[k].coordinate == x);
                assert(second[k].coordinate < second[second.len() - 1].coordinate);
                assert(has_coordinate(second, x));
                let q = choose|q: int| 0 <= q < first.len() && #[trigger] first[q].coordinate == x;
                assert(q < first.len() - 1);
                assert(f[q].coordinate == x);
            }
        }
        assert(strictly_ascending(f)) by {
            assert forall|i: int, j: int| 0 <= i < j < f.len() implies #[trigger] f[i].coordinate
                < #[trigger] f[j].coordinate by {
                assert(first[i].coordinate < first[j].coordinate);
            }
        }
        assert(strictly_ascending(s)) by {
            assert forall|i: int, j: int| 0 <= i < j < s.len() implies #[trigger] s[i].coordinate
                < #[trigger] s[j].coordinate by {
                assert(second[i].coordinate < second[j].coordinate);
            }
        }
        lemma_same_coordinates(f, s);
        assert forall|i: int| 0 <= i < first.len() implies first[i].coordinate
            == second[i].coordinate by {
            if i < first.len() - 1 {
                assert(f[i].coordinate == s[i].coordinate);
            }
        }
    }
}

/// The values of the samples that lie at `coordinate`.
fn gather(samples: &Vec<Sample>, coordinate: i64) -> (values: Vec<i64>)
    ensures
        values@ == samples_at(samples@, coordinate),
{
    let mut values: Vec<i64> = Vec::new();
    let mut i: usize = 0;
    proof {
        samples@.take(0).lemma_filter_len(at_coordinate(coordinate));
        assert(values@ =~= samples_at(samples@.take(0), coordinate));
    }
    while i < samples.len()
        invariant
            i <= samples.len(),
            values@ == samples_at(samples@.take(i as int), coordinate),
        decreases samples.len() - i,
    {
        let s: Sample = samples[i];
        proof {
            let before = samples@.take(i as int);
            samples@.lemma_take_succ_push(i as int);
            before.lemma_filter_push(s, at_coordinate(coordinate));
            before.filter(at_coordinate(coordinate)).lemma_push_map_commute(value_of(), s);
        }
        if s.coordinate == coordinate {
            values.push(s.value);
        }
        i = i + 1;
    }
    proof {
        samples@.lemma_take_len();
    }
    values
}

/// The coordinates at which samples lie, each once, ascending.
fn distinct_coordinates(samples: &Vec<Sample>) -> (distinct: Vec<i64>)
    ensures
        forall|i: int, j: int| 0 <= i < j < distinct.len() ==> distinct[i] < distinct[j],
        forall|x: i64| samples_at(samples@, x).len() > 0 ==> distinct@.contains(x),
        forall|i: int|
            0 <= i < distinct.len() ==> samples_at(samples@, #[trigger] distinct[i]).len() > 0,
{
    let mut all: Vec<i64> = Vec::new();
    let mut i: usize = 0;
    while i < samples.len()
        invariant
            i <= samples.len(),
            all.len() == i,
            forall|k: int| 0 <= k < i ==> all[k] == samples[k].coordinate,
        decreases samples.len() - i,
    {
        all.push(samples[i].coordinate);
        i = i + 1;
    }
    let sorted = sort_samples(&all);
    proof {
        lemma_ranked_properties(all@);
    }
    let mut distinct: Vec<i64> = Vec::new();
    let mut k: usize = 0;
    while k < sorted.len()
        invariant
            k <= sorted.len(),
            is_ascending(sorted@),
            sorted@ == ranked(all@),
            all.len() == samples.len(),
            forall|a: int| 0 <= a < all.len() ==> all[a] == samples[a].coordinate,
            forall|a: int, b: int| 0 <= a < b < distinct.len() ==> distinct[a] < distinct[b],
            forall|a: int| 0 <= a < distinct.len() ==> sorted@.contains(#[trigger] distinct[a]),
            forall|a: int| 0 <= a < k ==> distinct@.contains(#[trigger] sorted[a]),
            forall|a: int|
                0 <= a < distinct.len() && k < sorted.len() ==> #[trigger] distinct[a]
                    <= sorted[k as int],
            k > 0 ==> distinct.len() > 0 && distinct[distinct.len() - 1] == sorted[k - 1],
        decreases sorted.len() - k,
    {
        let x: i64 = sorted[k];
        let fresh: bool = distinct.len() == 0 || distinct[distinct.len() - 1] != x;
        let ghost before = distinct@;
        if fresh {
            distinct.push(x);
            proof {
                assert(distinct[distinct.len() - 1] == x);
                assert forall|a: int| 0 <= a < k + 1 implies distinct@.contains(
                    #[trigger] sorted[a],
                ) by {
                    if a < k {
                        assert(before.contains(sorted[a]));
                        let w = choose|w: int| 0 <= w < before.len() && before[w] == sorted[a];
                        assert(distinct[w] == sorted[a]);
                    } else {
                        assert(distinct[distinct.len() - 1] == sorted[a]);
                    }
                }
            }
        }
        k = k + 1;
    }
    proof {
        lemma_ranked_properties(all@);
        assert forall|x: i64| samples_at(samples@, x).len() > 0 implies distinct@.contains(x) by {
            lemma_samples_at_nonempty(samples@, x);
            let w = choose|w: int| 0 <= w < samples.len() && #[trigger] samples[w].coordinate == x;
            assert(all[w] == x);
            assert(all@.contains(x));
            vstd::seq_lib::to_multiset_contains(all@, x);
            vstd::seq_lib::to_multiset_contains(sorted@, x);
            assert(sorted@.contains(x));
            let a = choose|a: int| 0 <= a < sorted.len() && sorted[a] == x;
            assert(distinct@.contains(sorted[a]));
        }
        assert forall|a: int| 0 <= a < distinct.len() implies samples_at(
            samples@,
            #[trigger] distinct[a],
        ).len() > 0 by {
            let x = distinct[a];
            assert(sorted@.contains(x));
            vstd::seq_lib::to_multiset_contains(all@, x);
            vstd::seq_lib::to_multiset_contains(sorted@, x);
            assert(all@.contains(x));
            let w = choose|w: int| 0 <= w < all.len() && all[w] == x;
            assert(samples[w].coordinate == x);
            lemma_samples_at_nonempty(samples@, x);
        }
    }
    distinct
}

/// Groups the samples by coordinate and ranks every group.
fn group_samples(samples: &Vec<Sample>) -> (groups: Vec<Group>)
    ensures
        is_grouping(samples@, groups@),
{
    let distinct = distinct_coordinates(samples);
    let mut groups: Vec<Group> = Vec::new();
    let mut i: usize = 0;
    while i < distinct.len()
        invariant
            i <= distinct.len(),
            groups.len() == i,
            forall|k: int| 0 <= k < i ==> (#[trigger] groups[k]).coordinate == distinct[k],
            forall|k: int|
                0 <= k < i ==> (#[trigger] groups[k]).ranked@ == ranked(
                    samples_at(samples@, groups[k].coordinate),
                ),
        decreases distinct.len() - i,
    {
        let coordinate: i64 = distinct[i];
        let values = gather(samples, coordinate);
        let ranked_values = sort_samples(&values);
        groups.push(Group { coordinate, ranked: ranked_values });
        i = i + 1;
    }
    proof {
        assert forall|x: i64| #[trigger] samples_at(samples@, x).len() > 0 implies exists|i: int|
            0 <= i < groups.len() && #[trigger] groups[i].coordinate == x by {
            assert(distinct@.contains(x));
            let k = choose|k: int| 0 <= k < distinct.len() && distinct[k] == x;
            assert(groups[k].coordinate == x);
        }
    }
    groups
}

/// The band at `level`, from the groups of `samples`.
fn band_of(groups: &Vec<Group>, level: usize, Ghost(samples): Ghost<Seq<Sample>>) -> (band: Vec<
    Sample,
>)
    requires
        is_grouping(samples, groups@),
        level < 100,
    ensures
        is_band(samples, level as nat, band@),
{
    let mut band: Vec<Sample> = Vec::new();
    let mut i: usize = 0;
    while i < groups.len()
        invariant
            i <= groups.len(),
            level < 100,
            is_grouping(samples, groups@),
            strictly_ascending(band@),
            forall|j: int| 0 <= j < band.len() ==> from_group(groups@, i as int, #[trigger] band[j]),
            forall|k: int|
                0 <= k < i && (#[trigger] groups[k]).ranked.len() >= MIN_SAMPLES ==> has_coordinate(
                    band@,
                    groups[k].coordinate,
                ),
            forall|j: int|
                0 <= j < band.len() ==> Some((#[trigger] band[j]).value) == percentile_of(
                    samples_at(samples, band[j].coordinate),
                    level as nat,
                ),
        decreases groups.len() - i,
    {
        let group = &groups[i];
        let ghost before = band@;
        proof {
            lemma_ranked_properties(samples_at(samples, group.coordinate));
            lemma_ranking_keeps_percentile(samples_at(samples, group.coordinate), level as nat);
        }
        if let Some(value) = percentile_of_ranked(&group.ranked, level) {
            let entry = Sample { coordinate: group.coordinate, value };
            band.push(entry);
            proof {
                assert forall|a: int, b: int| 0 <= a < b < band.len() implies #[trigger] band[a].coordinate
                    < #[trigger] band[b].coordinate by {
                    if b == band.len() - 1 {
                        assert(band[a] == before[a]);
                        assert(from_group(groups@, i as int, before[a]));
                        let k = choose|k: int|
                            0 <= k < i && #[trigger] groups[k].coordinate == before[a].coordinate;
                        assert(groups[k].coordinate < groups[i as int].coordinate);
                    } else {
                        assert(band[a] == before[a] && band[b] == before[b]);
                    }
                }
                assert forall|j: int| 0 <= j < band.len() implies from_group(
                    groups@,
                    i + 1,
                    #[trigger] band[j],
                ) by {
                    if j < before.len() {
                        assert(band[j] == before[j]);
                        assert(from_group(groups@, i as int, before[j]));
                        let k = choose|k: int|
                            0 <= k < i && #[trigger] groups[k].coordinate == before[j].coordinate
                                && groups[k].ranked.len() >= MIN_SAMPLES;
                        assert(groups[k].coordinate == band[j].coordinate);
                    } else {
                        assert(groups[i as int].coordinate == band[j].coordinate);
                    }
                }
                assert forall|k: int|
                    0 <= k < i + 1 && (#[trigger] groups[k]).ranked.len()
                        >= MIN_SAMPLES implies has_coordinate(band@, groups[k].coordinate) by {
                    if k < i {
                        assert(has_coordinate(before, groups[k].coordinate));
                        let j = choose|j: int|
                            0 <= j < before.len() && #[trigger] before[j].coordinate
                                == groups[k].coordinate;
                        assert(band[j].coordinate == groups[k].coordinate);
                    } else {
                        assert(band[band.len() - 1].coordinate == groups[k].coordinate);
                    }
                }
                assert forall|j: int| 0 <= j < band.len() implies Some(
                    (#[trigger] band[j]).value,
                ) == percentile_of(samples_at(samples, band[j].coordinate), level as nat) by {
                    if j < before.len() {
                        assert(band[j] == before[j]);
                    }
                }
            }
        }
        proof {
            assert forall|j: int| 0 <= j < band.len() implies from_group(
                groups@,
                i + 1,
                #[trigger] band[j],
            ) by {
                if !(group.ranked.len() >= MIN_SAMPLES) {
                    assert(band[j] == before[j]);
                    assert(from_group(groups@, i as int, before[j]));
                    let k = choose|k: int|
                        0 <= k < i && #[trigger] groups[k].coordinate == before[j].coordinate
                            && groups[k].ranked.len() >= MIN_SAMPLES;
                    assert(groups[k].coordinate == band[j].coordinate);
                }
            }
        }
        i = i + 1;
    }
    proof {
        assert forall|x: i64| #[trigger]
            has_coordinate(band@, x) <==> samples_at(samples, x).len() >= MIN_SAMPLES by {
            if has_coordinate(band@, x) {
                let j = choose|j: int| 0 <= j < band.len() && #[trigger] band[j].coordinate == x;
                assert(from_group(groups@, i as int, band[j]));
                let k = choose|k: int|
                    0 <= k < i && #[trigger] groups[k].coordinate == band[j].coordinate
                        && groups[k].ranked.len() >= MIN_SAMPLES;
                lemma_ranked_properties(samples_at(samples, x));
            }
            if samples_at(samples, x).len() >= MIN_SAMPLES {
                let k = choose|k: int| 0 <= k < groups.len() && #[trigger] groups[k].coordinate == x;
                lemma_ranked_properties(samples_at(samples, x));
                assert(groups[k].ranked.len() >= MIN_SAMPLES);
            }
        }
    }
    band
}

/// The percentile band of `samples` at `level`.
///
/// A coordinate with fewer than `MIN_SAMPLES` samples is left out of the
/// band; nothing stands in for it.
pub fn percentile_band(samples: &Vec<Sample>, level: usize) -> (band: Vec<Sample>)
    requires
        level < 100,
    ensures
        is_band(samples@, level as nat, band@),
{
    let groups = group_samples(samples);
    band_of(&groups, level, Ghost(samples@))
}

/// The percentile bands of `samples` at the levels 20, 40, 60 and 80, in
/// that order, each with its level.
pub fn percentile_bands(samples: &Vec<Sample>) -> (bands: Vec<(usize, Vec<Sample>)>)
    ensures
        bands.len() == band_levels().len(),
        forall|k: int|
            0 <= k < bands.len() ==> (#[trigger] bands[k]).0 == band_levels()[k] && is_band(
                samples@,
                band_levels()[k] as nat,
                bands[k].1@,
            ),
{
    let groups = group_samples(samples);
    let mut bands: Vec<(usize, Vec<Sample>)> = Vec::new();
    let mut k: usize = 0;
    while k < 4
        invariant
            k <= 4,
            bands.len() == k,
            is_grouping(samples@, groups@),
            forall|n: int|
                0 <= n < k ==> (#[trigger] bands[n]).0 == band_levels()[n] && is_band(
                    samples@,
                    band_levels()[n] as nat,
                    bands[n].1@,
                ),
        decreases 4 - k,
    {
        let level: usize = 20 * (k + 1);
        let band = band_of(&groups, level, Ghost(samples@));
        bands.push((level, band));
        k = k + 1;
    }
    bands
}

} // verus!
