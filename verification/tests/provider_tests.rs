use forecast_bands::football::FootballLeague;
use forecast_bands::provider::{
    DataProvider, FootballProvider, UpdatePlan, WeatherLocation, WeatherProvider,
};

#[test]
fn location_is_named_by_country_and_zip() {
    let location = WeatherLocation::new("CH".to_string(), "8001".to_string());
    assert_eq!(location.country_code, "CH");
    assert_eq!(location.zip, "8001");
    assert_eq!(location.to_string(), "CH__8001");
    assert_eq!(WeatherLocation::new(String::new(), String::new()).to_string(), "__");
}

#[test]
fn forecast_is_asked_by_zip_country_and_key() {
    let location = WeatherLocation::new("CH".to_string(), "8001".to_string());
    assert_eq!(
        location.forecast_url("k3y"),
        "https://api.weatherbit.io/v2.0/forecast/daily?postal_code=8001&country=CH&key=k3y"
    );
}

#[test]
fn weather_data_lies_under_the_location() {
    let location = WeatherLocation::new("CH".to_string(), "8001".to_string());
    let provider = WeatherProvider::new("k3y".to_string(), location);
    assert_eq!(provider.api_key(), "k3y");
    assert_eq!(provider.location().zip, "8001");
    assert_eq!(provider.location().country_code, "CH");
    assert_eq!(provider.data_path(), vec!["data", "weather", "CH__8001"]);
}

#[test]
fn football_data_lies_under_the_league() {
    let league = FootballLeague { country: "spain".to_string() };
    assert_eq!(league.to_string(), "spain");
    let provider = FootballProvider::new("NOT_SET".to_string(), league);
    assert_eq!(provider.api_key(), "NOT_SET");
    assert_eq!(provider.league().country, "spain");
    assert_eq!(provider.data_path(), vec!["data", "football", "spain"]);
}

#[test]
fn update_fetches_only_a_missing_snapshot() {
    assert_eq!(
        WeatherProvider::update_plan(false, false),
        UpdatePlan { create_directory: true, fetch_snapshot: true }
    );
    assert_eq!(
        WeatherProvider::update_plan(true, false),
        UpdatePlan { create_directory: false, fetch_snapshot: true }
    );
    assert_eq!(
        WeatherProvider::update_plan(true, true),
        UpdatePlan { create_directory: false, fetch_snapshot: false }
    );
    assert_eq!(
        WeatherProvider::update_plan(false, true),
        UpdatePlan { create_directory: true, fetch_snapshot: false }
    );
}

#[test]
fn second_update_of_a_day_is_a_no_op() {
    let mut stored: Vec<String> = Vec::new();
    for _ in 0..2 {
        let name = WeatherProvider::snapshot_file_name(738361).unwrap();
        let plan = WeatherProvider::update_plan(true, stored.contains(&name));
        if plan.fetch_snapshot {
            stored.push(name);
        }
    }
    assert_eq!(stored, vec!["2022-07-25.json"]);
}
