use forecast_bands::conversions::{collect_points, dated_curve};
use forecast_bands::models::TimeSeriesPoint;
use forecast_bands::provider::WeatherProvider;

fn point(date: i32, value: i32) -> TimeSeriesPoint {
    TimeSeriesPoint { date, value }
}

#[test]
fn point_needs_a_day() {
    assert_eq!(TimeSeriesPoint::on_day(Some(738361), 33600), Some(point(738361, 33600)));
    assert_eq!(TimeSeriesPoint::on_day(Some(i32::MIN), i32::MAX), Some(point(i32::MIN, i32::MAX)));
    assert_eq!(TimeSeriesPoint::on_day(None, 33600), None);
}

#[test]
fn curve_needs_every_point() {
    assert_eq!(
        collect_points(&vec![Some(point(2, 5)), Some(point(1, 6)), Some(point(3, 7))]),
        Some(vec![point(2, 5), point(1, 6), point(3, 7)])
    );
    assert_eq!(collect_points(&Vec::new()), Some(Vec::new()));
    assert_eq!(collect_points(&vec![Some(point(2, 5)), None, Some(point(3, 7))]), None);
    assert_eq!(collect_points(&vec![None]), None);
}

#[test]
fn curve_needs_its_day() {
    let curve = vec![point(1, 2)];
    assert_eq!(dated_curve(Some(9), Some(curve.clone())), Some((9, curve.clone())));
    assert_eq!(dated_curve(None, Some(curve)), None);
    assert_eq!(dated_curve(Some(9), None), None);
    assert_eq!(dated_curve(None, None), None);
}

#[test]
fn snapshot_file_carries_the_day_text() {
    assert_eq!(WeatherProvider::file_name_for("2022-07-25"), "2022-07-25.json");
    assert_eq!(WeatherProvider::file_name_for(""), ".json");
}
