use forecast_bands::dates::strip_utc;
use forecast_bands::football::FootballSeasonResults;
use forecast_bands::models::{ForecastTemperaturePoint, TimeSeriesPoint, WeatherResponse};
use forecast_bands::provider::WeatherProvider;
use forecast_bands::sorting::TimeSeriesSortKey;

fn entry(valid_date: &str, max_temp: i32) -> ForecastTemperaturePoint {
    ForecastTemperaturePoint { valid_date: valid_date.to_string(), max_temp }
}

#[test]
fn payload_entry_names_its_day() {
    assert_eq!(entry("2022-07-25", 33600).date(), Some(738361));
    assert_eq!(entry("1970-01-01", 0).date(), Some(719163));
    assert_eq!(entry("0001-01-01", 0).date(), Some(1));
}

#[test]
fn payload_entry_without_a_day() {
    assert_eq!(entry("", 1).date(), None);
    assert_eq!(entry("yesterday", 1).date(), None);
    assert_eq!(entry("2022-02-30", 1).date(), None);
    assert_eq!(entry("2022-07", 1).date(), None);
    assert_eq!(entry("2022-07-25UTC", 1).date(), None);
}

#[test]
fn snapshot_day_ignores_the_zone() {
    let plain = WeatherResponse { as_of_date: "2022-07-25".to_string(), forecast: None };
    let zoned = WeatherResponse { as_of_date: "2022-07-25UTC".to_string(), forecast: None };
    assert_eq!(plain.date(), Some(738361));
    assert_eq!(zoned.date(), Some(738361));
    let broken = WeatherResponse { as_of_date: "UTC".to_string(), forecast: None };
    assert_eq!(broken.date(), None);
}

#[test]
fn zone_is_taken_out_everywhere() {
    assert_eq!(strip_utc("2022-07-25UTC"), "2022-07-25");
    assert_eq!(strip_utc("UTC2022UTC-07-25"), "2022-07-25");
    assert_eq!(strip_utc("UTUTCC"), "UTC");
    assert_eq!(strip_utc("UT"), "UT");
    assert_eq!(strip_utc(""), "");
    assert_eq!(strip_utc("UTCUTC"), "");
    assert_eq!(strip_utc("Zürich UTC"), "Zürich ");
}

#[test]
fn point_from_payload_entry() {
    assert_eq!(
        TimeSeriesPoint::from_forecast(&entry("2022-07-26", 31200)),
        Some(TimeSeriesPoint { date: 738362, value: 31200 })
    );
    assert_eq!(TimeSeriesPoint::from_forecast(&entry("26.07.2022", 31200)), None);
}

#[test]
fn season_is_ordered_by_new_year() {
    let season = |year: i32| FootballSeasonResults { season: year, player_results: Vec::new() };
    assert_eq!(TimeSeriesSortKey::date(&season(2020)), Some(737425));
    assert_eq!(TimeSeriesSortKey::date(&season(2021)), Some(737791));
    assert_eq!(TimeSeriesSortKey::date(&season(1)), Some(1));
    assert_eq!(TimeSeriesSortKey::date(&season(0)), Some(-365));
    assert_eq!(TimeSeriesSortKey::date(&season(-4)), Some(-1826));
    assert_eq!(TimeSeriesSortKey::date(&season(262142)), Some(95745035));
    assert_eq!(TimeSeriesSortKey::date(&season(-262143)), Some(-95746129));
    assert_eq!(TimeSeriesSortKey::date(&season(262143)), None);
    assert_eq!(TimeSeriesSortKey::date(&season(-262144)), None);
    assert_eq!(TimeSeriesSortKey::date(&season(i32::MAX)), None);
    assert_eq!(TimeSeriesSortKey::date(&season(i32::MIN)), None);
}

#[test]
fn snapshot_is_ordered_by_its_day() {
    let snapshot = WeatherResponse { as_of_date: "2022-08-09UTC".to_string(), forecast: None };
    assert_eq!(TimeSeriesSortKey::date(&snapshot), Some(738376));
}

#[test]
fn snapshot_file_is_named_by_its_day() {
    assert_eq!(WeatherProvider::snapshot_file_name(738361), Some("2022-07-25.json".to_string()));
    assert_eq!(WeatherProvider::snapshot_file_name(1), Some("0001-01-01.json".to_string()));
    assert_eq!(WeatherProvider::snapshot_file_name(i32::MAX), None);
    assert_eq!(WeatherProvider::snapshot_file_name(i32::MIN), None);
}

#[test]
fn written_day_reads_back() {
    for day in [1, 719163, 738361, 738376] {
        let name = WeatherProvider::snapshot_file_name(day).unwrap();
        let text = name.strip_suffix(".json").unwrap().to_string();
        let snapshot = WeatherResponse { as_of_date: text, forecast: None };
        assert_eq!(snapshot.date(), Some(day));
    }
}
