use forecast_bands::chart::{unzip, unzip_level_curve};
use forecast_bands::models::TimeSeriesPoint;

fn point(date: i32, value: i32) -> TimeSeriesPoint {
    TimeSeriesPoint { date, value }
}

#[test]
fn chart_leaves_out_the_first_point() {
    let curve = [point(10, 1), point(11, 2), point(12, 3)];
    assert_eq!(unzip(&curve), (vec![11, 12], vec![2, 3]));
}

#[test]
fn chart_of_a_short_curve_is_empty() {
    assert_eq!(unzip(&[]), (Vec::new(), Vec::new()));
    assert_eq!(unzip(&[point(10, 1)]), (Vec::new(), Vec::new()));
}

#[test]
fn level_curve_keeps_every_entry() {
    let curve = [(0i64, 5i64), (1, -3), (4, 7)];
    assert_eq!(unzip_level_curve(&curve), (vec![0, 1, 4], vec![5, -3, 7]));
    assert_eq!(unzip_level_curve(&[]), (Vec::new(), Vec::new()));
}
