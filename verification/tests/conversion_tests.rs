use forecast_bands::conversions::{
    convert_weather_responses, create_temperature_timeseries, percentile_timeseries, percentiles,
    reference_lookup, reference_timeseries,
};
use forecast_bands::models::{
    ForecastCurve, ForecastTemperaturePoint, TimeSeries, TimeSeriesPoint, WeatherResponse,
};

fn point(date: i32, value: i32) -> TimeSeriesPoint {
    TimeSeriesPoint { date, value }
}

fn curve(first_day: i32, values: &[i32]) -> TimeSeries {
    values.iter().enumerate().map(|(n, v)| point(first_day + n as i32, *v)).collect()
}

fn entry(valid_date: &str, max_temp: i32) -> ForecastTemperaturePoint {
    ForecastTemperaturePoint { valid_date: valid_date.to_string(), max_temp }
}

fn snapshot(as_of_date: &str, forecast: Option<ForecastCurve>) -> WeatherResponse {
    WeatherResponse { as_of_date: as_of_date.to_string(), forecast }
}

#[test]
fn curve_keeps_payload_order() {
    let payload = vec![entry("2022-07-26", 30000), entry("2022-07-25", 33600), entry("2022-07-27", 28100)];
    assert_eq!(
        create_temperature_timeseries(payload),
        Some(vec![point(738362, 30000), point(738361, 33600), point(738363, 28100)])
    );
    assert_eq!(create_temperature_timeseries(Vec::new()), Some(Vec::new()));
}

#[test]
fn payload_with_a_bad_day_gives_no_curve() {
    let payload = vec![entry("2022-07-25", 33600), entry("someday", 30000)];
    assert_eq!(create_temperature_timeseries(payload), None);
}

#[test]
fn malformed_snapshots_are_left_out() {
    let good = vec![entry("2022-07-25", 33600), entry("2022-07-26", 30000)];
    let later = vec![entry("2022-07-26", 31000)];
    let forecasts = vec![
        snapshot("2022-07-25UTC", Some(good)),
        snapshot("2022-07-26UTC", None),
        snapshot("no day", Some(vec![entry("2022-07-27", 1)])),
        snapshot("2022-07-27", Some(vec![entry("2022-07-27", 1), entry("27/07", 2)])),
        snapshot("2022-07-26", Some(later)),
    ];
    let curves = convert_weather_responses(forecasts, create_temperature_timeseries);
    assert_eq!(
        curves,
        vec![
            (738361, vec![point(738361, 33600), point(738362, 30000)]),
            (738362, vec![point(738362, 31000)]),
        ]
    );
}

#[test]
fn conversion_applies_the_given_extraction() {
    let forecasts = vec![
        snapshot("2022-07-25", Some(vec![entry("2022-07-25", 7)])),
        snapshot("2022-07-26", Some(Vec::new())),
    ];
    let count = |payload: ForecastCurve| -> Option<TimeSeries> {
        if payload.is_empty() {
            None
        } else {
            Some(vec![TimeSeriesPoint { date: 0, value: payload.len() as i32 }])
        }
    };
    assert_eq!(convert_weather_responses(forecasts, count), vec![(738361, vec![point(0, 1)])]);
    assert_eq!(convert_weather_responses(Vec::new(), count), Vec::new());
}

#[test]
fn reference_is_the_earliest_curve() {
    let sorted = vec![(10, curve(10, &[1, 2, 3])), (11, curve(11, &[4, 5])), (12, curve(12, &[6]))];
    assert_eq!(reference_timeseries(&sorted), curve(10, &[1, 2, 3]));
    let unsorted = vec![(11, curve(11, &[4, 5])), (10, curve(10, &[1, 2, 3])), (10, curve(10, &[9]))];
    assert_eq!(reference_timeseries(&unsorted), curve(10, &[1, 2, 3]));
    let none: Vec<(i32, TimeSeries)> = Vec::new();
    assert_eq!(reference_timeseries(&none), Vec::new());
    let empty_first = vec![(1, Vec::new()), (2, curve(2, &[1]))];
    assert_eq!(reference_timeseries(&empty_first), Vec::new());
}

#[test]
fn two_curves_never_fill_a_day() {
    let forecast_ts = vec![(100, curve(100, &[1000, 1000, 1000])), (101, curve(101, &[2000, 2000, 2000]))];
    let levels = percentile_timeseries(&forecast_ts);
    assert_eq!(levels.len(), 4);
    for (k, (level, band)) in levels.iter().enumerate() {
        assert_eq!(*level, 20 * (k + 1));
        assert!(band.is_empty());
    }
}

#[test]
fn calendar_bands_of_five_curves() {
    // day 104 is covered by all five curves, day 103 and 105 by four
    let forecast_ts: Vec<(i32, TimeSeries)> = (0..5)
        .map(|k| (100 + k, curve(100 + k, &[10 * k, 20 * k, 30 * k, 40 * k, 50 * k])))
        .collect();
    // day 104: 0 from curve 4's first point ... values 50*0, 40*1, 30*2, 20*3, 10*4
    let levels = percentile_timeseries(&forecast_ts);
    // ranked values on day 104: 0 40 40 60 60
    assert_eq!(levels[0], (20, vec![point(104, 40)]));
    assert_eq!(levels[1], (40, vec![point(104, 40)]));
    assert_eq!(levels[2], (60, vec![point(104, 60)]));
    assert_eq!(levels[3], (80, vec![point(104, 60)]));
}

#[test]
fn calendar_bands_run_by_day() {
    let forecast_ts: Vec<(i32, TimeSeries)> =
        (0..6).map(|k| (7, vec![point(9, k), point(8, 10 * k), point(7, -k)])).collect();
    let levels = percentile_timeseries(&forecast_ts);
    // six samples a day: index 6 * 20 / 100 = 1, 6 * 80 / 100 = 4
    assert_eq!(levels[0].1, vec![point(7, -4), point(8, 10), point(9, 1)]);
    assert_eq!(levels[3].1, vec![point(7, -1), point(8, 40), point(9, 4)]);
}

#[test]
fn aggregation_is_repeatable() {
    let forecast_ts: Vec<(i32, TimeSeries)> = (0..9)
        .map(|k| (50 + k, curve(50 + k, &[(k * 37) % 11, (k * 5) % 7, k, 3 - k, k * k, 8, 1])))
        .collect();
    let reference = reference_timeseries(&forecast_ts);
    assert_eq!(percentile_timeseries(&forecast_ts), percentile_timeseries(&forecast_ts));
    let first = percentiles(&reference, &forecast_ts);
    let second = percentiles(&reference, &forecast_ts);
    assert_eq!(first, second);
    for level in [20usize, 40, 60, 80] {
        assert_eq!(first[&level], second[&level]);
    }
}

#[test]
fn points_past_the_reference_horizon_are_passed_over() {
    let reference = curve(100, &[10, 11, 12, 13, 14]);
    // five curves made on day 100, each reaching five days past the reference
    let forecast_ts: Vec<(i32, TimeSeries)> = (1..=5)
        .map(|k| {
            let values: Vec<i32> = (0..10).map(|n| 10 + n + k * (n + 1)).collect();
            (100, curve(100, &values))
        })
        .collect();
    let curves = percentiles(&reference, &forecast_ts);
    assert_eq!(curves.len(), 4);
    assert_eq!(curves[&20], vec![(0, 2), (1, 4), (2, 6), (3, 8), (4, 10)]);
    assert_eq!(curves[&40], vec![(0, 3), (1, 6), (2, 9), (3, 12), (4, 15)]);
    assert_eq!(curves[&60], vec![(0, 4), (1, 8), (2, 12), (3, 16), (4, 20)]);
    assert_eq!(curves[&80], vec![(0, 5), (1, 10), (2, 15), (3, 20), (4, 25)]);
    for level in [20usize, 40, 60, 80] {
        assert!(curves[&level].iter().all(|(lead, _)| *lead <= 4));
    }
}

#[test]
fn curve_beyond_the_reference_gives_no_samples() {
    let reference = curve(100, &[10, 11, 12]);
    let forecast_ts: Vec<(i32, TimeSeries)> = (0..6).map(|k| (103, curve(103, &[k, k, k]))).collect();
    let curves = percentiles(&reference, &forecast_ts);
    for level in [20usize, 40, 60, 80] {
        assert!(curves[&level].is_empty());
    }
}

#[test]
fn lead_times_below_zero_are_kept() {
    let reference = curve(100, &[10]);
    let forecast_ts: Vec<(i32, TimeSeries)> = (0..5).map(|k| (103, vec![point(100, 10 - k)])).collect();
    let curves = percentiles(&reference, &forecast_ts);
    // errors 0 -1 -2 -3 -4 at lead -3
    assert_eq!(curves[&20], vec![(-3, -3)]);
    assert_eq!(curves[&80], vec![(-3, 0)]);
}

#[test]
fn lead_and_error_use_the_whole_range() {
    let reference = vec![point(i32::MIN, i32::MAX)];
    let forecast_ts: Vec<(i32, TimeSeries)> =
        (0..5).map(|_| (i32::MAX, vec![point(i32::MIN, i32::MIN)])).collect();
    let curves = percentiles(&reference, &forecast_ts);
    let lead = i32::MIN as i64 - i32::MAX as i64;
    let error = i32::MIN as i64 - i32::MAX as i64;
    assert_eq!(curves[&40], vec![(lead, error)]);
}

#[test]
fn later_reference_point_replaces_earlier() {
    let reference = vec![point(5, 100), point(6, 200), point(5, 300)];
    let lookup = reference_lookup(&reference);
    assert_eq!(lookup.len(), 2);
    assert_eq!(lookup[&5], 300);
    assert_eq!(lookup[&6], 200);
    let forecast_ts: Vec<(i32, TimeSeries)> = (0..5).map(|k| (5, vec![point(5, 300 + k)])).collect();
    assert_eq!(percentiles(&reference, &forecast_ts)[&60], vec![(0, 3)]);
}

#[test]
fn no_curves_give_empty_bands() {
    let none: Vec<(i32, TimeSeries)> = Vec::new();
    let levels = percentile_timeseries(&none);
    assert_eq!(levels, vec![(20, Vec::new()), (40, Vec::new()), (60, Vec::new()), (80, Vec::new())]);
    let curves = percentiles(&[], &none);
    assert_eq!(curves.len(), 4);
    for level in [20usize, 40, 60, 80] {
        assert!(curves[&level].is_empty());
    }
}
