//! Curves as the columns that a chart is drawn from.

use crate::models::TimeSeriesPoint;
use vstd::prelude::*;

verus! {

/// The points of a curve that a chart shows: all but the first, which is
/// the forecast for the day the curve was made.
pub open spec fn charted(time_series: Seq<TimeSeriesPoint>) -> Seq<TimeSeriesPoint> {
    if time_series.len() == 0 {
        time_series
    } else {
        time_series.skip(1)
    }
}

/// Splits a curve into the days and the values that a chart shows. A curve
/// without points gives two empty columns.
pub fn unzip(time_series: &[TimeSeriesPoint]) -> (columns: (Vec<i32>, Vec<i32>))
    ensures
        columns.0@ == charted(time_series@).map_values(|point: TimeSeriesPoint| point.date),
        columns.1@ == charted(time_series@).map_values(|point: TimeSeriesPoint| point.value),
{
    let mut dates: Vec<i32> = Vec::new();
    let mut values: Vec<i32> = Vec::new();
    if time_series.len() == 0 {
        proof {
            assert(dates@ =~= charted(time_series@).map_values(|point: TimeSeriesPoint| point.date));
            assert(values@ =~= charted(time_series@).map_values(
                |point: TimeSeriesPoint| point.value,
            ));
        }
        return (dates, values);
    }
    let mut i: usize = 1;
    while i < time_series.len()
        invariant
            1 <= i <= time_series.len(),
            dates.len() == i - 1,
            values.len() == i - 1,
            forall|k: int| 0 <= k < i - 1 ==> dates[k] == time_series@[k + 1].date,
            forall|k: int| 0 <= k < i - 1 ==> values[k] == time_series@[k + 1].value,
        decreases time_series.len() - i,
    {
        dates.push(time_series[i].date);
        values.push(time_series[i].value);
        i = i + 1;
    }
    proof {
        let shown = charted(time_series@);
        assert(dates@ =~= shown.map_values(|point: TimeSeriesPoint| point.date));
        assert(values@ =~= shown.map_values(|point: TimeSeriesPoint| point.value));
    }
    (dates, values)
}

/// Splits a band per lead time into its lead times, in days, and its
/// values.
pub fn unzip_level_curve(curve: &[(i64, i64)]) -> (columns: (Vec<i64>, Vec<i64>))
    ensures
        columns.0@ == curve@.map_values(|entry: (i64, i64)| entry.0),
        columns.1@ == curve@.map_values(|entry: (i64, i64)| entry.1),
{
    let mut days_ahead: Vec<i64> = Vec::new();
    let mut values: Vec<i64> = Vec::new();
    let mut i: usize = 0;
    while i < curve.len()
        invariant
            i <= curve.len(),
            days_ahead.len() == i,
            values.len() == i,
            forall|k: int| 0 <= k < i ==> days_ahead[k] == curve@[k].0,
            forall|k: int| 0 <= k < i ==> values[k] == curve@[k].1,
        decreases curve.len() - i,
    {
        days_ahead.push(curve[i].0);
        values.push(curve[i].1);
        i = i + 1;
    }
    proof {
        assert(days_ahead@ =~= curve@.map_values(|entry: (i64, i64)| entry.0));
        assert(values@ =~= curve@.map_values(|entry: (i64, i64)| entry.1));
    }
    (days_ahead, values)
}

} // verus!
