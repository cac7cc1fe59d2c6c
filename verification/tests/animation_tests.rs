use forecast_bands::animation::AnimationType;
use forecast_bands::models::TimeSeriesPoint;

fn point(date: i32, value: i32) -> TimeSeriesPoint {
    TimeSeriesPoint { date, value }
}

#[test]
fn absolute_animation_draws_the_values() {
    let animation = AnimationType::Absolute;
    assert_eq!(animation.chart_point(&point(3, -7)), Some(-7));
    assert_eq!(
        animation.chart_points(&[point(3, 5), point(4, 6), point(5, 7)]),
        vec![(0, 5), (1, 6), (2, 7)]
    );
    assert_eq!(animation.chart_points(&[]), Vec::new());
}

#[test]
fn relative_animation_draws_the_difference() {
    let animation = AnimationType::create_relative(&[point(3, 10), point(4, 20)]);
    assert!(matches!(&animation, AnimationType::Relative(reference) if reference.len() == 2));
    assert_eq!(animation.chart_point(&point(3, 7)), Some(-3));
    assert_eq!(animation.chart_point(&point(4, 25)), Some(5));
    assert_eq!(animation.chart_point(&point(5, 25)), None);
}

#[test]
fn relative_animation_keeps_the_place_of_each_point() {
    let animation = AnimationType::create_relative(&[point(3, 10), point(5, 30)]);
    let curve = [point(2, 1), point(3, 12), point(4, 1), point(5, 29), point(6, 1)];
    assert_eq!(animation.chart_points(&curve), vec![(1, 2), (3, -1)]);
}

#[test]
fn relative_animation_spans_the_whole_range() {
    let animation = AnimationType::create_relative(&[point(0, i32::MAX)]);
    assert_eq!(animation.chart_point(&point(0, i32::MIN)), Some(i32::MIN as i64 - i32::MAX as i64));
}

#[test]
fn animation_files_and_axes() {
    let absolute = AnimationType::Absolute;
    let relative = AnimationType::create_relative(&[]);
    assert_eq!(absolute.output_file_name(), "forecast_animation.gif");
    assert_eq!(relative.output_file_name(), "forecast_relative_animation.gif");
    assert_eq!(absolute.y_axis_range(), (-20, 45));
    assert_eq!(relative.y_axis_range(), (-20, 20));
    assert!(absolute.caption().starts_with("Weather forcast curve for next 16 days"));
    assert!(relative.caption().starts_with("Weather forcast difference (relative to reference)"));
}
