//! Putting loaded items in the order of their days.

use crate::dates::{first_day_of_year, year_start_day};
use crate::football::FootballSeasonResults;
use crate::models::WeatherResponse;
use vstd::prelude::*;

verus! {

/// An item of a time series, ordered by a day.
pub trait TimeSeriesSortKey {
    /// The day by which the item is ordered, if it has one.
    spec fn sort_day(&self) -> Option<i32>;

    /// Reads the day by which the item is ordered.
    fn date(&self) -> (day: Option<i32>)
        ensures
            day == self.sort_day(),
    ;
}

impl TimeSeriesSortKey for WeatherResponse {
    /// A snapshot is ordered by the day it was made.
    open spec fn sort_day(&self) -> Option<i32> {
        self.day()
    }

    fn date(&self) -> (day: Option<i32>) {
        WeatherResponse::date(self)
    }
}

impl TimeSeriesSortKey for FootballSeasonResults {
    /// A season is ordered by January 1 of its year.
    open spec fn sort_day(&self) -> Option<i32> {
        first_day_of_year(self.season as int)
    }

    fn date(&self) -> (day: Option<i32>) {
        year_start_day(self.season)
    }
}

/// The place of a day among all days: an item without a day comes before
/// every item that has one.
pub open spec fn day_rank(day: Option<i32>) -> int {
    match day {
        Some(d) => d as int,
        None => i32::MIN - 1,
    }
}

/// The items whose sort day is `day`.
pub open spec fn with_day<T: TimeSeriesSortKey>(day: Option<i32>) -> spec_fn(T) -> bool {
    |item: T| item.sort_day() == day
}

/// No item is followed by one of an earlier day.
pub open spec fn is_sorted_by_date<T: TimeSeriesSortKey>(data: Seq<T>) -> bool {
    forall|i: int, j: int|
        0 <= i < j < data.len() ==> day_rank((#[trigger] data[i]).sort_day()) <= day_rank(
            (#[trigger] data[j]).sort_day(),
        )
}

/// `after` holds the items of `before` in the order of their days, and
/// items of the same day in the order they had.
pub open spec fn is_sorted_version<T: TimeSeriesSortKey>(before: Seq<T>, after: Seq<T>) -> bool {
    &&& is_sorted_by_date(after)
    &&& after.to_multiset() == before.to_multiset()
    &&& forall|day: Option<i32>| #[trigger]
        after.filter(with_day(day)) == before.filter(with_day(day))
}

/// Moving an item forward past items of other days changes nothing among
/// the items of any one day.
proof fn lemma_move_keeps_days<T: TimeSeriesSortKey>(data: Seq<T>, to: int, from: int, day: Option<i32>)
    requires
        0 <= to <= from < data.len(),
        forall|k: int| to <= k < from ==> (#[trigger] data[k]).sort_day() != data[from].sort_day(),
    ensures
        data.remove(from).insert(to, data[from]).filter(with_day(day)) == data.filter(with_day(day)),
{
    let item = data[from];
    let head = data.subrange(0, to);
    let passed = data.subrange(to, from);
    let tail = data.subrange(from + 1, data.len() as int);
    let one = seq![item];
    let moved = data.remove(from).insert(to, item);
    let pred = with_day::<T>(day);
    assert(data =~= ((head + passed) + one) + tail);
    assert(moved =~= ((head + one) + passed) + tail);
    Seq::filter_distributes_over_add(head + passed, one, pred);
    Seq::filter_distributes_over_add((head + passed) + one, tail, pred);
    Seq::filter_distributes_over_add(head, passed, pred);
    Seq::filter_distributes_over_add(head + one, passed, pred);
    Seq::filter_distributes_over_add((head + one) + passed, tail, pred);
    Seq::filter_distributes_over_add(head, one, pred);
    if item.sort_day() == day {
        assert(passed.all(|x: T| !pred(x))) by {
            assert forall|k: int| 0 <= k < passed.len() implies !pred(#[trigger] passed[k]) by {
                assert(passed[k] == data[to + k]);
            }
        }
        passed.lemma_all_neg_filter_empty(pred);
        assert(passed.filter(pred) =~= Seq::empty());
        assert(moved.filter(pred) =~= data.filter(pred));
    } else {
        assert(one.all(|x: T| !pred(x)));
        one.lemma_all_neg_filter_empty(pred);
        assert(one.filter(pred) =~= Seq::empty());
        assert(moved.filter(pred) =~= data.filter(pred));
    }
}

/// Whether the first day comes after the second.
fn is_later(first: Option<i32>, second: Option<i32>) -> (later: bool)
    ensures
        later == (day_rank(first) > day_rank(second)),
{
    match (first, second) {
        (Some(a), Some(b)) => a > b,
        (Some(_), None) => true,
        (None, _) => false,
    }
}

/// Puts the items in the order of their days. Items of the same day keep
/// the order they had, and items without a day come first.
pub fn sort_by_date<T: TimeSeriesSortKey>(data: &mut Vec<T>)
    ensures
        is_sorted_version(old(data)@, final(data)@),
{
    let ghost start = data@;
    let mut i: usize = 1;
    while i < data.len()
        invariant
            1 <= i,
            data.len() == start.len(),
            forall|a: int, b: int|
                0 <= a < b < i && b < data.len() ==> day_rank((#[trigger] data[a]).sort_day())
                    <= day_rank((#[trigger] data[b]).sort_day()),
            data@.to_multiset() == start.to_multiset(),
            forall|day: Option<i32>| #[trigger]
                data@.filter(with_day(day)) == start.filter(with_day(day)),
        decreases data.len() - i,
    {
        let key = data[i].date();
        let mut to: usize = i;
        while to > 0 && is_later(data[to - 1].date(), key)
            invariant
                to <= i < data.len(),
                key == data[i as int].sort_day(),
                forall|k: int| to <= k < i ==> day_rank((#[trigger] data[k]).sort_day()) > day_rank(key),
            decreases to,
        {
            to = to - 1;
        }
        if to < i {
            let ghost before = data@;
            let item = data.remove(i);
            data.insert(to, item);
            proof {
                vstd::seq_lib::to_multiset_remove(before, i as int);
                vstd::seq_lib::to_multiset_insert(before.remove(i as int), to as int, item);
                vstd::seq_lib::to_multiset_contains(before, item);
                assert(before.contains(item));
                assert(data@.to_multiset() =~= before.to_multiset()) by {
                    broadcast use vstd::multiset::group_multiset_axioms;

                }
                assert forall|day: Option<i32>| #[trigger]
                    data@.filter(with_day(day)) == start.filter(with_day(day)) by {
                    lemma_move_keeps_days(before, to as int, i as int, day);
                }
                assert forall|a: int, b: int| 0 <= a < b < i + 1 && b < data.len() implies day_rank(
                    (#[trigger] data[a]).sort_day(),
                ) <= day_rank((#[trigger] data[b]).sort_day()) by {
                    let at = |k: int| if k < to { before[k] } else if k == to { item } else { before[k - 1] };
                    assert(data[a] == at(a));
                    assert(data[b] == at(b));
                    if to > 0 {
                        assert(day_rank(before[to - 1].sort_day()) <= day_rank(key));
                    }
                }
            }
        }
        i = i + 1;
    }
    proof {
        assert(is_sorted_by_date(data@));
    }
}

} // verus!
