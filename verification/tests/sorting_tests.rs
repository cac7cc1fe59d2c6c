use forecast_bands::football::FootballSeasonResults;
use forecast_bands::models::{ForecastTemperaturePoint, WeatherResponse};
use forecast_bands::sorting::sort_by_date;

fn snapshot(as_of_date: &str, mark: i32) -> WeatherResponse {
    let entry = ForecastTemperaturePoint { valid_date: as_of_date.to_string(), max_temp: mark };
    WeatherResponse { as_of_date: as_of_date.to_string(), forecast: Some(vec![entry]) }
}

fn marks(data: &[WeatherResponse]) -> Vec<i32> {
    data.iter().map(|s| s.forecast.as_ref().unwrap()[0].max_temp).collect()
}

#[test]
fn snapshots_are_put_in_the_order_of_their_days() {
    let mut data = vec![
        snapshot("2022-07-27UTC", 1),
        snapshot("2022-07-25UTC", 2),
        snapshot("2022-08-01UTC", 3),
        snapshot("2022-07-26UTC", 4),
    ];
    sort_by_date(&mut data);
    assert_eq!(marks(&data), vec![2, 4, 1, 3]);
}

#[test]
fn snapshots_of_one_day_keep_their_order() {
    let mut data = vec![
        snapshot("2022-07-26", 1),
        snapshot("2022-07-25", 2),
        snapshot("2022-07-26UTC", 3),
        snapshot("2022-07-25UTC", 4),
        snapshot("2022-07-26", 5),
    ];
    sort_by_date(&mut data);
    assert_eq!(marks(&data), vec![2, 4, 1, 3, 5]);
}

#[test]
fn snapshots_without_a_day_come_first() {
    let mut data = vec![
        snapshot("2022-07-26", 1),
        snapshot("never", 2),
        snapshot("0001-01-01", 3),
        snapshot("", 4),
    ];
    sort_by_date(&mut data);
    assert_eq!(marks(&data), vec![2, 4, 3, 1]);
}

#[test]
fn sorting_few_or_sorted_items_changes_nothing() {
    let mut none: Vec<WeatherResponse> = Vec::new();
    sort_by_date(&mut none);
    assert!(none.is_empty());
    let mut one = vec![snapshot("2022-07-26", 1)];
    sort_by_date(&mut one);
    assert_eq!(marks(&one), vec![1]);
    let mut sorted = vec![snapshot("2022-07-25", 1), snapshot("2022-07-26", 2), snapshot("2022-07-27", 3)];
    sort_by_date(&mut sorted);
    assert_eq!(marks(&sorted), vec![1, 2, 3]);
}

#[test]
fn seasons_are_put_in_the_order_of_their_years() {
    let season = |year: i32| FootballSeasonResults { season: year, player_results: Vec::new() };
    let mut data = vec![season(2021), season(2019), season(400000), season(-3), season(2020)];
    sort_by_date(&mut data);
    let years: Vec<i32> = data.iter().map(|s| s.season).collect();
    assert_eq!(years, vec![400000, -3, 2019, 2020, 2021]);
}
