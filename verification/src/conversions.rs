//! From stored snapshots to curves, and from curves to percentile bands.

use crate::bands::{
    band_levels, is_band, lemma_band_entry_is_sample, lemma_band_is_unique, percentile_bands,
    Sample,
};
use crate::models::{
    ForecastCurve, ForecastTemperaturePoint, TimeSeries, TimeSeriesPoint, WeatherResponse,
};
use std::collections::HashMap;
use vstd::prelude::*;

verus! {

/// Every entry of the payload names a day.
pub open spec fn is_dated(curve: Seq<ForecastTemperaturePoint>) -> bool {
    forall|i: int| 0 <= i < curve.len() ==> (#[trigger] curve[i]).day() is Some
}

/// The points that the entries of a payload stand for, in payload order.
pub open spec fn temperature_points(curve: Seq<ForecastTemperaturePoint>) -> Seq<TimeSeriesPoint> {
    Seq::new(curve.len(), |i: int| curve[i].point().unwrap())
}

/// None of the points is missing.
pub open spec fn is_complete(points: Seq<Option<TimeSeriesPoint>>) -> bool {
    forall|i: int| 0 <= i < points.len() ==> (#[trigger] points[i]) is Some
}

/// Makes a curve of points that were read one by one: the points in their
/// order if none is missing, and no curve if any is.
pub fn collect_points(points: &Vec<Option<TimeSeriesPoint>>) -> (series: Option<TimeSeries>)
    ensures
        series is Some <==> is_complete(points@),
        series matches Some(ts) ==> ts@ == points@.map_values(
            |point: Option<TimeSeriesPoint>| point.unwrap(),
        ),
{
    let mut series: TimeSeries = Vec::new();
    let mut i: usize = 0;
    while i < points.len()
        invariant
            i <= points.len(),
            series.len() == i,
            forall|k: int| 0 <= k < i ==> (#[trigger] points[k]) == Some(series[k]),
        decreases points.len() - i,
    {
        match points[i] {
            Some(point) => {
                series.push(point);
            },
            None => {
                return None;
            },
        }
        i = i + 1;
    }
    proof {
        assert(series@ =~= points@.map_values(|point: Option<TimeSeriesPoint>| point.unwrap()));
    }
    Some(series)
}

/// Reads the curve of highest temperatures out of a payload.
///
/// The points keep the order of the payload; they are not sorted. A payload
/// with an entry that names no day yields no curve.
pub fn create_temperature_timeseries(forecast_curve: ForecastCurve) -> (series: Option<TimeSeries>)
    ensures
        series is Some <==> is_dated(forecast_curve@),
        series matches Some(ts) ==> ts@ == temperature_points(forecast_curve@),
{
    let mut points: Vec<Option<TimeSeriesPoint>> = Vec::new();
    let mut i: usize = 0;
    while i < forecast_curve.len()
        invariant
            i <= forecast_curve.len(),
            points.len() == i,
            forall|k: int| 0 <= k < i ==> #[trigger] points[k] == forecast_curve[k].point(),
        decreases forecast_curve.len() - i,
    {
        points.push(TimeSeriesPoint::from_forecast(&forecast_curve[i]));
        i = i + 1;
    }
    let series = collect_points(&points);
    proof {
        if is_dated(forecast_curve@) {
            assert forall|k: int| 0 <= k < points.len() implies (#[trigger] points[k]) is Some by {
                assert(forecast_curve[k].day() is Some);
            }
        }
        if is_complete(points@) {
            assert forall|k: int| 0 <= k < forecast_curve.len() implies (
            #[trigger] forecast_curve[k]).day() is Some by {
                assert(points[k] is Some);
            }
        }
        if series is Some {
            assert(series.unwrap()@ =~= temperature_points(forecast_curve@));
        }
    }
    series
}

/// The curve of a snapshot with its as-of day, where both were read.
pub fn dated_curve(day: Option<i32>, series: Option<TimeSeries>) -> (curve: Option<
    (i32, TimeSeries),
>)
    ensures
        curve == match (day, series) {
            (Some(as_of), Some(points)) => Some((as_of, points)),
            _ => None::<(i32, TimeSeries)>,
        },
{
    match (day, series) {
        (Some(as_of), Some(points)) => Some((as_of, points)),
        _ => None,
    }
}

/// `curves` is what the snapshots give under `create_time_series`: for every
/// snapshot, in the order of the snapshots, its as-of day with the curve
/// that `create_time_series` made of its payload. A snapshot whose as-of
/// text names no day, whose payload did not decode, or of whose payload
/// `create_time_series` made nothing, has no entry.
pub open spec fn is_conversion<F: Fn(ForecastCurve) -> Option<TimeSeries>>(
    forecasts: Seq<WeatherResponse>,
    create_time_series: F,
    curves: Seq<(i32, TimeSeries)>,
) -> bool
    decreases forecasts.len(),
{
    if forecasts.len() == 0 {
        curves.len() == 0
    } else {
        let before = forecasts.drop_last();
        let last = forecasts.last();
        match (last.day(), last.forecast) {
            (Some(day), Some(payload)) => {
                ||| call_ensures(create_time_series, (payload,), None::<TimeSeries>)
                    && is_conversion(before, create_time_series, curves)
                ||| curves.len() > 0 && curves.last().0 == day && call_ensures(
                    create_time_series,
                    (payload,),
                    Some(curves.last().1),
                ) && is_conversion(before, create_time_series, curves.drop_last())
            },
            _ => is_conversion(before, create_time_series, curves),
        }
    }
}

/// Turns stored snapshots into curves, each with its as-of day.
///
/// The snapshots are taken in the order given. A snapshot that cannot be
/// read is left out and the others are still converted: one bad snapshot
/// does not stop the rest.
pub fn convert_weather_responses<F: Fn(ForecastCurve) -> Option<TimeSeries>>(
    forecasts: Vec<WeatherResponse>,
    create_time_series: F,
) -> (curves: Vec<(i32, TimeSeries)>)
    requires
        forall|i: int|
            0 <= i < forecasts.len() ==> ((#[trigger] forecasts[i]).forecast matches Some(payload)
                ==> call_requires(create_time_series, (payload,))),
    ensures
        is_conversion(forecasts@, create_time_series, curves@),
{
    let ghost all = forecasts@;
    let mut curves: Vec<(i32, TimeSeries)> = Vec::new();
    proof {
        assert(all.take(0) =~= Seq::empty());
    }
    for fc in it: forecasts
        invariant
            it.seq() == all,
            forall|i: int|
                0 <= i < all.len() ==> ((#[trigger] all[i]).forecast matches Some(payload)
                    ==> call_requires(create_time_series, (payload,))),
            is_conversion(all.take(it.index() as int), create_time_series, curves@),
    {
        let ghost before = curves@;
        let ghost i = it.index() as int;
        proof {
            let next = all.take(i + 1);
            assert(next.drop_last() =~= all.take(i));
            assert(next.last() == fc);
            assert(all[i] == fc);
        }
        let day = fc.date();
        let series = match (day, fc.forecast) {
            (Some(_), Some(payload)) => create_time_series(payload),
            _ => None,
        };
        match dated_curve(day, series) {
            Some(curve) => {
                curves.push(curve);
                proof {
                    assert(curves@.drop_last() =~= before);
                }
            },
            None => {},
        }
    }
    proof {
        assert(all.take(all.len() as int) =~= all);
    }
    curves
}

/// The curves that the snapshots give when the curve of highest
/// temperatures is read out of every payload, each with its as-of day.
pub open spec fn temperature_curves(forecasts: Seq<WeatherResponse>) -> Seq<
    (i32, Seq<TimeSeriesPoint>),
>
    decreases forecasts.len(),
{
    if forecasts.len() == 0 {
        Seq::empty()
    } else {
        let before = temperature_curves(forecasts.drop_last());
        let last = forecasts.last();
        match (last.day(), last.forecast) {
            (Some(day), Some(payload)) => if is_dated(payload@) {
                before.push((day, temperature_points(payload@)))
            } else {
                before
            },
            _ => before,
        }
    }
}

/// What `is_conversion` says of the last snapshot and of those before it.
proof fn lemma_conversion_unfolds<F: Fn(ForecastCurve) -> Option<TimeSeries>>(
    forecasts: Seq<WeatherResponse>,
    create_time_series: F,
    curves: Seq<(i32, TimeSeries)>,
)
    requires
        is_conversion(forecasts, create_time_series, curves),
    ensures
        forecasts.len() == 0 ==> curves.len() == 0,
        forecasts.len() > 0 ==> match (forecasts.last().day(), forecasts.last().forecast) {
            (Some(day), Some(payload)) => {
                ||| call_ensures(create_time_series, (payload,), None::<TimeSeries>)
                    && is_conversion(forecasts.drop_last(), create_time_series, curves)
                ||| curves.len() > 0 && curves.last().0 == day && call_ensures(
                    create_time_series,
                    (payload,),
                    Some(curves.last().1),
                ) && is_conversion(forecasts.drop_last(), create_time_series, curves.drop_last())
            },
            _ => is_conversion(forecasts.drop_last(), create_time_series, curves),
        },
{
}

/// With `create_temperature_timeseries` the curves are fixed by the
/// snapshots: they are `temperature_curves`, point for point.
pub proof fn lemma_temperature_conversion(
    forecasts: Seq<WeatherResponse>,
    curves: Seq<(i32, TimeSeries)>,
)
    requires
        is_conversion(forecasts, create_temperature_timeseries, curves),
    ensures
        curves.len() == temperature_curves(forecasts).len(),
        forall|i: int|
            0 <= i < curves.len() ==> (#[trigger] curves[i]).0 == temperature_curves(forecasts)[i].0
                && curves[i].1@ == temperature_curves(forecasts)[i].1,
    decreases forecasts.len(),
{
    lemma_conversion_unfolds(forecasts, create_temperature_timeseries, curves);
    if forecasts.len() > 0 {
        let before = forecasts.drop_last();
        let last = forecasts.last();
        match (last.day(), last.forecast) {
            (Some(day), Some(payload)) => {
                if call_ensures(create_temperature_timeseries, (payload,), None::<TimeSeries>)
                    && is_conversion(before, create_temperature_timeseries, curves) {
                    lemma_temperature_conversion(before, curves);
                } else {
                    lemma_temperature_conversion(before, curves.drop_last());
                    let expected = temperature_curves(forecasts);
                    assert forall|i: int| 0 <= i < curves.len() implies (#[trigger] curves[i]).0
                        == expected[i].0 && curves[i].1@ == expected[i].1 by {
                        if i < curves.len() - 1 {
                            assert(curves[i] == curves.drop_last()[i]);
                        }
                    }
                }
            },
            _ => {
                lemma_temperature_conversion(before, curves);
            },
        }
    }
}

/// `k` is the place of the curve with the earliest as-of day; of several
/// with that day, the first.
pub open spec fn is_earliest(forecast_ts: Seq<(i32, TimeSeries)>, k: int) -> bool {
    &&& 0 <= k < forecast_ts.len()
    &&& forall|i: int| 0 <= i < k ==> forecast_ts[k].0 < (#[trigger] forecast_ts[i]).0
    &&& forall|i: int| k <= i < forecast_ts.len() ==> forecast_ts[k].0 <= (#[trigger] forecast_ts[i]).0
}

/// The curves stand in the order of their as-of days.
pub open spec fn is_chronological(forecast_ts: Seq<(i32, TimeSeries)>) -> bool {
    forall|i: int, j: int|
        0 <= i < j < forecast_ts.len() ==> (#[trigger] forecast_ts[i]).0 <= (
        #[trigger] forecast_ts[j]).0
}

/// The reference curve: all points of the curve with the earliest as-of
/// day. Without any curve the reference curve is empty.
pub fn reference_timeseries(forecast_ts: &[(i32, TimeSeries)]) -> (reference: Vec<TimeSeriesPoint>)
    ensures
        forecast_ts@.len() == 0 ==> reference@.len() == 0,
        forecast_ts@.len() > 0 ==> exists|k: int| #[trigger]
            is_earliest(forecast_ts@, k) && reference@ == forecast_ts@[k].1@,
{
    let mut reference: Vec<TimeSeriesPoint> = Vec::new();
    if forecast_ts.len() == 0 {
        return reference;
    }
    let mut best: usize = 0;
    let mut i: usize = 1;
    while i < forecast_ts.len()
        invariant
            1 <= i <= forecast_ts.len(),
            best < i,
            forall|k: int| 0 <= k < best ==> forecast_ts@[best as int].0 < (#[trigger] forecast_ts@[k]).0,
            forall|k: int| best <= k < i ==> forecast_ts@[best as int].0 <= (#[trigger] forecast_ts@[k]).0,
        decreases forecast_ts.len() - i,
    {
        if forecast_ts[i].0 < forecast_ts[best].0 {
            best = i;
        }
        i = i + 1;
    }
    let curve = &forecast_ts[best].1;
    let mut j: usize = 0;
    while j < curve.len()
        invariant
            j <= curve.len(),
            reference@ == curve@.take(j as int),
        decreases curve.len() - j,
    {
        reference.push(curve[j]);
        proof {
            curve@.lemma_take_succ_push(j as int);
        }
        j = j + 1;
    }
    proof {
        curve@.lemma_take_len();
        assert(is_earliest(forecast_ts@, best as int));
    }
    reference
}

/// With the curves in the order of their as-of days, the earliest is the
/// first.
pub proof fn lemma_earliest_of_chronological(forecast_ts: Seq<(i32, TimeSeries)>, k: int)
    requires
        is_chronological(forecast_ts),
        is_earliest(forecast_ts, k),
    ensures
        k == 0,
{
    if k > 0 {
        assert(forecast_ts[k].0 < forecast_ts[0].0);
        assert(forecast_ts[0].0 <= forecast_ts[k].0);
    }
}

/// A point as a sample: its day is the coordinate.
pub open spec fn point_sample(point: TimeSeriesPoint) -> Sample {
    Sample { coordinate: point.date as i64, value: point.value as i64 }
}

/// The points of a curve as samples, in the order of the curve.
pub open spec fn curve_samples(curve: Seq<TimeSeriesPoint>) -> Seq<Sample> {
    curve.map_values(|point: TimeSeriesPoint| point_sample(point))
}

/// The points of all curves as samples by calendar day, curve after curve.
/// Every curve gives one sample for each of its points.
pub open spec fn calendar_samples(forecast_ts: Seq<(i32, TimeSeries)>) -> Seq<Sample>
    decreases forecast_ts.len(),
{
    if forecast_ts.len() == 0 {
        Seq::empty()
    } else {
        calendar_samples(forecast_ts.drop_last()) + curve_samples(forecast_ts.last().1@)
    }
}

/// The sample stands for a point of a curve.
pub open spec fn is_point_sample(sample: Sample) -> bool {
    i32::MIN <= sample.coordinate <= i32::MAX && i32::MIN <= sample.value <= i32::MAX
}

/// Turns the entries of a band over calendar days back into points.
fn band_points(band: &Vec<Sample>) -> (curve: TimeSeries)
    requires
        forall|i: int| 0 <= i < band.len() ==> is_point_sample(#[trigger] band[i]),
    ensures
        curve_samples(curve@) == band@,
{
    let mut curve: TimeSeries = Vec::new();
    let mut i: usize = 0;
    while i < band.len()
        invariant
            i <= band.len(),
            curve.len() == i,
            forall|k: int| 0 <= k < band.len() ==> is_point_sample(#[trigger] band[k]),
            forall|k: int| 0 <= k < i ==> point_sample(#[trigger] curve[k]) == band[k],
        decreases band.len() - i,
    {
        let entry: Sample = band[i];
        assert(is_point_sample(entry));
        curve.push(TimeSeriesPoint { date: entry.coordinate as i32, value: entry.value as i32 });
        i = i + 1;
    }
    proof {
        assert(curve_samples(curve@) =~= band@);
    }
    curve
}

/// Collects the points of all curves as samples by calendar day.
fn collect_calendar_samples(forecast_ts: &[(i32, TimeSeries)]) -> (samples: Vec<Sample>)
    ensures
        samples@ == calendar_samples(forecast_ts@),
        forall|k: int| 0 <= k < samples.len() ==> is_point_sample(#[trigger] samples[k]),
{
    let mut samples: Vec<Sample> = Vec::new();
    let mut i: usize = 0;
    proof {
        assert(forecast_ts@.take(0) =~= Seq::empty());
    }
    while i < forecast_ts.len()
        invariant
            i <= forecast_ts.len(),
            samples@ == calendar_samples(forecast_ts@.take(i as int)),
            forall|k: int| 0 <= k < samples.len() ==> is_point_sample(#[trigger] samples[k]),
        decreases forecast_ts.len() - i,
    {
        let curve = &forecast_ts[i].1;
        let ghost before = samples@;
        let mut j: usize = 0;
        proof {
            assert(curve_samples(curve@.take(0)) =~= Seq::empty());
            assert(before + curve_samples(curve@.take(0)) =~= before);
        }
        while j < curve.len()
            invariant
                j <= curve.len(),
                samples@ == before + curve_samples(curve@.take(j as int)),
                forall|k: int| 0 <= k < samples.len() ==> is_point_sample(#[trigger] samples[k]),
            decreases curve.len() - j,
        {
            let point: TimeSeriesPoint = curve[j];
            samples.push(Sample { coordinate: point.date as i64, value: point.value as i64 });
            proof {
                curve@.lemma_take_succ_push(j as int);
                assert(curve_samples(curve@.take(j + 1)) =~= curve_samples(
                    curve@.take(j as int),
                ).push(point_sample(point)));
                assert(samples@ =~= before + curve_samples(curve@.take(j + 1)));
            }
            j = j + 1;
        }
        proof {
            curve@.lemma_take_len();
            let next = forecast_ts@.take(i + 1);
            assert(next.drop_last() =~= forecast_ts@.take(i as int));
            assert(next.last() == forecast_ts@[i as int]);
        }
        i = i + 1;
    }
    proof {
        assert(forecast_ts@.take(forecast_ts@.len() as int) =~= forecast_ts@);
    }
    samples
}

/// The percentile bands per calendar day, at the levels 20, 40, 60 and 80
/// in that order.
///
/// Every point of every curve counts as one sample for its day. A band holds
/// a day only if at least `MIN_SAMPLES` samples fall on it; other days are
/// left out. Each band runs by ascending day.
pub fn percentile_timeseries(forecast_ts: &[(i32, TimeSeries)]) -> (levels: Vec<(usize, TimeSeries)>)
    ensures
        levels.len() == band_levels().len(),
        forall|k: int|
            0 <= k < levels.len() ==> (#[trigger] levels[k]).0 == band_levels()[k] && is_band(
                calendar_samples(forecast_ts@),
                band_levels()[k] as nat,
                curve_samples(levels[k].1@),
            ),
{
    let samples = collect_calendar_samples(forecast_ts);
    let bands = percentile_bands(&samples);
    let mut levels: Vec<(usize, TimeSeries)> = Vec::new();
    let mut k: usize = 0;
    while k < bands.len()
        invariant
            k <= bands.len(),
            levels.len() == k,
            bands.len() == band_levels().len(),
            samples@ == calendar_samples(forecast_ts@),
            forall|n: int| 0 <= n < samples.len() ==> is_point_sample(#[trigger] samples[n]),
            forall|n: int|
                0 <= n < bands.len() ==> (#[trigger] bands[n]).0 == band_levels()[n] && is_band(
                    samples@,
                    band_levels()[n] as nat,
                    bands[n].1@,
                ),
            forall|n: int|
                0 <= n < k ==> (#[trigger] levels[n]).0 == band_levels()[n] && is_band(
                    calendar_samples(forecast_ts@),
                    band_levels()[n] as nat,
                    curve_samples(levels[n].1@),
                ),
        decreases bands.len() - k,
    {
        let level: usize = bands[k].0;
        let band = &bands[k].1;
        proof {
            assert(bands[k as int].0 == band_levels()[k as int]);
            assert forall|i: int| 0 <= i < band.len() implies is_point_sample(
                #[trigger] band[i],
            ) by {
                lemma_band_entry_is_sample(samples@, level as nat, band@, i);
                let m = choose|m: int| 0 <= m < samples.len() && samples[m] == band[i];
                assert(is_point_sample(samples[m]));
            }
        }
        let curve = band_points(band);
        levels.push((level, curve));
        k = k + 1;
    }
    levels
}

/// The lookup from calendar day to reference value: every point of the
/// reference curve enters its value under its day, and a later point takes
/// the place of an earlier one on the same day.
pub open spec fn reference_map(ref_curve: Seq<TimeSeriesPoint>) -> Map<i32, i32>
    decreases ref_curve.len(),
{
    if ref_curve.len() == 0 {
        Map::empty()
    } else {
        reference_map(ref_curve.drop_last()).insert(ref_curve.last().date, ref_curve.last().value)
    }
}

/// Builds the lookup from calendar day to reference value.
pub fn reference_lookup(ref_curve: &[TimeSeriesPoint]) -> (lookup: HashMap<i32, i32>)
    ensures
        lookup@ == reference_map(ref_curve@),
{
    broadcast use vstd::std_specs::hash::group_hash_axioms;

    let mut lookup: HashMap<i32, i32> = HashMap::new();
    let mut i: usize = 0;
    proof {
        assert(ref_curve@.take(0) =~= Seq::empty());
    }
    while i < ref_curve.len()
        invariant
            i <= ref_curve.len(),
            lookup@ == reference_map(ref_curve@.take(i as int)),
        decreases ref_curve.len() - i,
    {
        let point: TimeSeriesPoint = ref_curve[i];
        lookup.insert(point.date, point.value);
        proof {
            let next = ref_curve@.take(i + 1);
            assert(next.drop_last() =~= ref_curve@.take(i as int));
            assert(next.last() == point);
        }
        i = i + 1;
    }
    proof {
        assert(ref_curve@.take(ref_curve@.len() as int) =~= ref_curve@);
    }
    lookup
}

/// The sample that a point of a curve made on day `as_of` gives by lead
/// time: its lead in days, and by how much its value differs from the
/// reference value of its day. A point on a day without a reference value
/// gives none.
pub open spec fn error_sample(
    reference: Map<i32, i32>,
    as_of: i32,
    point: TimeSeriesPoint,
) -> Option<Sample> {
    if reference.contains_key(point.date) {
        Some(
            Sample {
                coordinate: (point.date - as_of) as i64,
                value: (point.value - reference[point.date]) as i64,
            },
        )
    } else {
        None
    }
}

/// The samples by lead time that the points of one curve give, in the order
/// of the curve.
pub open spec fn curve_errors(
    reference: Map<i32, i32>,
    as_of: i32,
    curve: Seq<TimeSeriesPoint>,
) -> Seq<Sample>
    decreases curve.len(),
{
    if curve.len() == 0 {
        Seq::empty()
    } else {
        let before = curve_errors(reference, as_of, curve.drop_last());
        match error_sample(reference, as_of, curve.last()) {
            Some(sample) => before.push(sample),
            None => before,
        }
    }
}

/// The samples by lead time of all curves, curve after curve.
pub open spec fn lead_samples(
    reference: Map<i32, i32>,
    forecast_ts: Seq<(i32, TimeSeries)>,
) -> Seq<Sample>
    decreases forecast_ts.len(),
{
    if forecast_ts.len() == 0 {
        Seq::empty()
    } else {
        lead_samples(reference, forecast_ts.drop_last()) + curve_errors(
            reference,
            forecast_ts.last().0,
            forecast_ts.last().1@,
        )
    }
}

/// A point on a day that the reference curve does not cover adds nothing
/// to the samples by lead time.
pub proof fn lemma_uncovered_point_adds_nothing(
    ref_curve: Seq<TimeSeriesPoint>,
    as_of: i32,
    curve: Seq<TimeSeriesPoint>,
    point: TimeSeriesPoint,
)
    requires
        forall|i: int| 0 <= i < ref_curve.len() ==> (#[trigger] ref_curve[i]).date != point.date,
    ensures
        curve_errors(reference_map(ref_curve), as_of, curve.push(point)) == curve_errors(
            reference_map(ref_curve),
            as_of,
            curve,
        ),
{
    lemma_reference_map_domain(ref_curve, point.date);
    assert(curve.push(point).drop_last() =~= curve);
}

/// The lookup has a value for a day exactly if the reference curve has a
/// point on that day.
pub proof fn lemma_reference_map_domain(ref_curve: Seq<TimeSeriesPoint>, date: i32)
    ensures
        reference_map(ref_curve).contains_key(date) <==> exists|i: int|
            0 <= i < ref_curve.len() && (#[trigger] ref_curve[i]).date == date,
    decreases ref_curve.len(),
{
    if ref_curve.len() > 0 {
        let before = ref_curve.drop_last();
        lemma_reference_map_domain(before, date);
        if reference_map(ref_curve).contains_key(date) {
            if ref_curve.last().date == date {
                assert(ref_curve[ref_curve.len() - 1].date == date);
            } else {
                let i = choose|i: int| 0 <= i < before.len() && (#[trigger] before[i]).date == date;
                assert(ref_curve[i].date == date);
            }
        }
        if exists|i: int| 0 <= i < ref_curve.len() && (#[trigger] ref_curve[i]).date == date {
            let i = choose|i: int| 0 <= i < ref_curve.len() && (#[trigger] ref_curve[i]).date == date;
            if i < ref_curve.len() - 1 {
                assert(before[i].date == date);
            }
        }
    }
}

/// The entries of a band by lead time as samples.
pub open spec fn pair_samples(pairs: Seq<(i64, i64)>) -> Seq<Sample> {
    pairs.map_values(|pair: (i64, i64)| Sample { coordinate: pair.0, value: pair.1 })
}

/// Collects the samples by lead time of all curves.
fn collect_lead_samples(lookup: &HashMap<i32, i32>, forecast_ts: &[(i32, TimeSeries)]) -> (samples:
    Vec<Sample>)
    ensures
        samples@ == lead_samples(lookup@, forecast_ts@),
{
    broadcast use vstd::std_specs::hash::group_hash_axioms;

    let mut samples: Vec<Sample> = Vec::new();
    let mut i: usize = 0;
    proof {
        assert(forecast_ts@.take(0) =~= Seq::empty());
    }
    while i < forecast_ts.len()
        invariant
            i <= forecast_ts.len(),
            samples@ == lead_samples(lookup@, forecast_ts@.take(i as int)),
        decreases forecast_ts.len() - i,
    {
        let as_of: i32 = forecast_ts[i].0;
        let curve = &forecast_ts[i].1;
        let ghost before = samples@;
        let mut j: usize = 0;
        proof {
            assert(curve@.take(0) =~= Seq::empty());
            assert(before + curve_errors(lookup@, as_of, curve@.take(0)) =~= before);
        }
        while j < curve.len()
            invariant
                j <= curve.len(),
                samples@ == before + curve_errors(lookup@, as_of, curve@.take(j as int)),
            decreases curve.len() - j,
        {
            let point: TimeSeriesPoint = curve[j];
            proof {
                let next = curve@.take(j + 1);
                assert(next.drop_last() =~= curve@.take(j as int));
                assert(next.last() == point);
            }
            match lookup.get(&point.date) {
                Some(reference_value) => {
                    let lead: i64 = point.date as i64 - as_of as i64;
                    let error: i64 = point.value as i64 - *reference_value as i64;
                    samples.push(Sample { coordinate: lead, value: error });
                    proof {
                        assert(samples@ =~= before + curve_errors(
                            lookup@,
                            as_of,
                            curve@.take(j + 1),
                        ));
                    }
                },
                None => {},
            }
            j = j + 1;
        }
        proof {
            curve@.lemma_take_len();
            let next = forecast_ts@.take(i + 1);
            assert(next.drop_last() =~= forecast_ts@.take(i as int));
            assert(next.last() == forecast_ts@[i as int]);
        }
        i = i + 1;
    }
    proof {
        assert(forecast_ts@.take(forecast_ts@.len() as int) =~= forecast_ts@);
    }
    samples
}

/// The entries of a band as pairs of lead time and error.
fn band_pairs(band: &Vec<Sample>) -> (pairs: Vec<(i64, i64)>)
    ensures
        pair_samples(pairs@) == band@,
{
    let mut pairs: Vec<(i64, i64)> = Vec::new();
    let mut i: usize = 0;
    while i < band.len()
        invariant
            i <= band.len(),
            pairs.len() == i,
            forall|k: int|
                0 <= k < i ==> (#[trigger] pairs[k]).0 == band[k].coordinate && pairs[k].1
                    == band[k].value,
        decreases band.len() - i,
    {
        let entry: Sample = band[i];
        pairs.push((entry.coordinate, entry.value));
        i = i + 1;
    }
    proof {
        assert(pair_samples(pairs@) =~= band@);
    }
    pairs
}

/// The percentile bands of the forecast error per lead time, under the
/// levels 20, 40, 60 and 80.
///
/// Every point of every curve whose day the reference curve covers counts
/// as one sample: its lead time is its day less the as-of day of its curve,
/// in days, and its error is its value less the reference value of its day.
/// A point on a day that the reference curve does not cover is passed over.
/// A band holds a lead time only if at least `MIN_SAMPLES` samples have
/// exactly that lead time, and runs by ascending lead time. Lead times
/// below zero are kept like any other.
pub fn percentiles(ref_curve: &[TimeSeriesPoint], forecast_ts: &[(i32, TimeSeries)]) -> (curves:
    HashMap<usize, Vec<(i64, i64)>>)
    ensures
        forall|level: usize| #[trigger] curves@.contains_key(level) <==> band_levels().contains(level),
        forall|k: int|
            0 <= k < band_levels().len() ==> curves@.contains_key(#[trigger] band_levels()[k])
                && is_band(
                lead_samples(reference_map(ref_curve@), forecast_ts@),
                band_levels()[k] as nat,
                pair_samples(curves@[band_levels()[k]]@),
            ),
{
    broadcast use vstd::std_specs::hash::group_hash_axioms;

    let lookup = reference_lookup(ref_curve);
    let samples = collect_lead_samples(&lookup, forecast_ts);
    let bands = percentile_bands(&samples);
    let mut curves: HashMap<usize, Vec<(i64, i64)>> = HashMap::new();
    let mut k: usize = 0;
    while k < bands.len()
        invariant
            k <= bands.len(),
            bands.len() == band_levels().len(),
            forall|n: int|
                0 <= n < bands.len() ==> (#[trigger] bands[n]).0 == band_levels()[n] && is_band(
                    samples@,
                    band_levels()[n] as nat,
                    bands[n].1@,
                ),
            forall|level: usize| #[trigger]
                curves@.contains_key(level) <==> band_levels().take(k as int).contains(level),
            forall|n: int|
                0 <= n < k ==> curves@.contains_key(#[trigger] band_levels()[n]) && is_band(
                    samples@,
                    band_levels()[n] as nat,
                    pair_samples(curves@[band_levels()[n]]@),
                ),
        decreases bands.len() - k,
    {
        let level: usize = bands[k].0;
        let pairs = band_pairs(&bands[k].1);
        let ghost before = curves@;
        curves.insert(level, pairs);
        proof {
            assert(bands[k as int].0 == band_levels()[k as int]);
            assert(curves@ == before.insert(level, pairs));
            let done = band_levels().take(k as int);
            let next = band_levels().take(k + 1);
            assert(next =~= done.push(level));
            assert forall|other: usize| #[trigger]
                curves@.contains_key(other) <==> next.contains(other) by {
                if other == level {
                    assert(next[k as int] == level);
                } else {
                    if done.contains(other) {
                        let w = choose|w: int| 0 <= w < done.len() && done[w] == other;
                        assert(next[w] == other);
                    }
                    if next.contains(other) {
                        let w = choose|w: int| 0 <= w < next.len() && next[w] == other;
                        assert(done[w] == other);
                    }
                }
            }
            assert forall|n: int| 0 <= n < k + 1 implies curves@.contains_key(
                #[trigger] band_levels()[n],
            ) && is_band(
                samples@,
                band_levels()[n] as nat,
                pair_samples(curves@[band_levels()[n]]@),
            ) by {
                if n < k {
                    assert(band_levels()[n] != level);
                    assert(before.contains_key(band_levels()[n]));
                }
            }
        }
        k = k + 1;
    }
    proof {
        assert(band_levels().take(band_levels().len() as int) =~= band_levels());
    }
    curves
}

/// Identical curves give identical bands per calendar day: a band is fixed
/// by the curves and the level, point for point and in order.
pub proof fn lemma_calendar_band_is_unique(
    forecast_ts: Seq<(i32, TimeSeries)>,
    level: nat,
    first: Seq<TimeSeriesPoint>,
    second: Seq<TimeSeriesPoint>,
)
    requires
        is_band(calendar_samples(forecast_ts), level, curve_samples(first)),
        is_band(calendar_samples(forecast_ts), level, curve_samples(second)),
    ensures
        first == second,
{
    lemma_band_is_unique(
        calendar_samples(forecast_ts),
        level,
        curve_samples(first),
        curve_samples(second),
    );
    assert(first.len() == curve_samples(first).len());
    assert(second.len() == curve_samples(second).len());
    assert forall|i: int| 0 <= i < first.len() implies first[i] == second[i] by {
        assert(point_sample(first[i]) == curve_samples(first)[i]);
        assert(point_sample(second[i]) == curve_samples(second)[i]);
    }
    assert(first =~= second);
}

/// Identical curves against an identical reference curve give identical
/// bands per lead time: a band is fixed by them and the level, entry for
/// entry and in order.
pub proof fn lemma_lead_band_is_unique(
    ref_curve: Seq<TimeSeriesPoint>,
    forecast_ts: Seq<(i32, TimeSeries)>,
    level: nat,
    first: Seq<(i64, i64)>,
    second: Seq<(i64, i64)>,
)
    requires
        is_band(lead_samples(reference_map(ref_curve), forecast_ts), level, pair_samples(first)),
        is_band(lead_samples(reference_map(ref_curve), forecast_ts), level, pair_samples(second)),
    ensures
        first == second,
{
    lemma_band_is_unique(
        lead_samples(reference_map(ref_curve), forecast_ts),
        level,
        pair_samples(first),
        pair_samples(second),
    );
    assert(first.len() == pair_samples(first).len());
    assert(second.len() == pair_samples(second).len());
    assert forall|i: int| 0 <= i < first.len() implies first[i] == second[i] by {
        assert(pair_samples(first)[i].coordinate == first[i].0);
        assert(pair_samples(second)[i].coordinate == second[i].0);
        assert(pair_samples(first)[i].value == first[i].1);
        assert(pair_samples(second)[i].value == second[i].1);
    }
    assert(first =~= second);
}

} // verus!
