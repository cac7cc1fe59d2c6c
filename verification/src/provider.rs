//! Where the data of a source is kept, and what keeping it up to date
//! takes.

use crate::dates::{format_iso_day, iso_text};
use crate::football::FootballLeague;
use vstd::prelude::*;
use vstd::string::*;

verus! {

/// The place that forecasts are made for.
#[derive(Clone, Debug)]
pub struct WeatherLocation {
    pub country_code: String,
    pub zip: String,
}

impl WeatherLocation {
    pub fn new(country_code: String, zip: String) -> (location: Self)
        ensures
            location.country_code == country_code,
            location.zip == zip,
    {
        Self { country_code, zip }
    }

    /// The name of the location: country code and postal code, joined by
    /// two underscores.
    pub open spec fn label(&self) -> Seq<char> {
        self.country_code@ + "__"@ + self.zip@
    }

    /// Writes the name of the location.
    pub fn to_string(&self) -> (text: String)
        ensures
            text@ == self.label(),
    {
        let mut text = self.country_code.clone();
        text.append("__");
        text.append(self.zip.as_str());
        text
    }

    /// The address that the daily forecast of the location is asked from.
    pub open spec fn forecast_address(&self, api_key: Seq<char>) -> Seq<char> {
        "https://api.weatherbit.io/v2.0/forecast/daily?postal_code="@ + self.zip@ + "&country="@
            + self.country_code@ + "&key="@ + api_key
    }

    /// Writes the address that the daily forecast of the location is asked
    /// from with the given key.
    pub fn forecast_url(&self, api_key: &str) -> (url: String)
        ensures
            url@ == self.forecast_address(api_key@),
    {
        let mut url = String::from_str("https://api.weatherbit.io/v2.0/forecast/daily?postal_code=");
        url.append(self.zip.as_str());
        url.append("&country=");
        url.append(self.country_code.as_str());
        url.append("&key=");
        url.append(api_key);
        url
    }
}

impl FootballLeague {
    /// Writes the name of the league, which is its country.
    pub fn to_string(&self) -> (text: String)
        ensures
            text@ == self.country@,
    {
        self.country.clone()
    }
}

/// A source of data that is kept in a directory of its own.
pub trait DataProvider {
    /// The directory of the source, part by part from the working
    /// directory.
    spec fn path_parts(&self) -> Seq<Seq<char>>;

    /// Names the directory of the source, part by part.
    fn data_path(&self) -> (path: Vec<String>)
        ensures
            path.len() == self.path_parts().len(),
            forall|i: int| 0 <= i < path.len() ==> (#[trigger] path[i])@ == self.path_parts()[i],
    ;
}

/// What bringing the store up to date for one day takes.
#[derive(Clone, Copy, Debug, PartialEq, Eq, Structural)]
pub struct UpdatePlan {
    /// The directory of the source has to be made first.
    pub create_directory: bool,
    /// A snapshot has to be fetched and saved.
    pub fetch_snapshot: bool,
}

/// The source of weather forecasts for one location.
pub struct WeatherProvider {
    api_key: String,
    location: WeatherLocation,
}

impl DataProvider for WeatherProvider {
    /// The snapshots of a location are kept under `data`, then `weather`,
    /// then the name of the location.
    open spec fn path_parts(&self) -> Seq<Seq<char>> {
        seq!["data"@, "weather"@, self.place().label()]
    }

    fn data_path(&self) -> (path: Vec<String>) {
        let mut path: Vec<String> = Vec::new();
        path.push(String::from_str("data"));
        path.push(String::from_str("weather"));
        path.push(self.location.to_string());
        path
    }
}

impl WeatherProvider {
    pub closed spec fn key(&self) -> String {
        self.api_key
    }

    pub closed spec fn place(&self) -> WeatherLocation {
        self.location
    }

    pub fn new(api_key: String, location: WeatherLocation) -> (provider: Self)
        ensures
            provider.key() == api_key,
            provider.place() == location,
    {
        Self { api_key, location }
    }

    /// The key that forecasts are asked with.
    pub fn api_key(&self) -> (key: &String)
        ensures
            *key == self.key(),
    {
        &self.api_key
    }

    /// The location that forecasts are asked for.
    pub fn location(&self) -> (place: &WeatherLocation)
        ensures
            *place == self.place(),
    {
        &self.location
    }

    /// The name of the file that holds the snapshot of a day.
    pub open spec fn file_name_of(as_of: i32) -> Option<Seq<char>> {
        match iso_text(as_of) {
            Some(day) => Some(day + ".json"@),
            None => None,
        }
    }

    /// Names the file that holds the snapshot of the day written as
    /// `day_text`: the text, then `.json`.
    pub fn file_name_for(day_text: &str) -> (name: String)
        ensures
            name@ == day_text@ + ".json"@,
    {
        let mut name = String::from_str(day_text);
        name.append(".json");
        name
    }

    /// Names the file that holds the snapshot made on `as_of`: the day as
    /// year, month and day, then `.json`. A day that cannot be written has
    /// no file.
    pub fn snapshot_file_name(as_of: i32) -> (name: Option<String>)
        ensures
            name is Some <==> Self::file_name_of(as_of) is Some,
            name matches Some(text) ==> Self::file_name_of(as_of) == Some(text@),
    {
        match format_iso_day(as_of) {
            Some(day_text) => Some(Self::file_name_for(day_text.as_str())),
            None => None,
        }
    }

    /// Decides what bringing the store up to date for one day takes, from
    /// what is on disk. The directory is made if it is missing. A snapshot
    /// is fetched and saved only if the day has none yet: a day that has a
    /// snapshot is left as it is.
    pub fn update_plan(directory_exists: bool, snapshot_exists: bool) -> (plan: UpdatePlan)
        ensures
            plan.create_directory == !directory_exists,
            plan.fetch_snapshot == !snapshot_exists,
    {
        UpdatePlan { create_directory: !directory_exists, fetch_snapshot: !snapshot_exists }
    }
}

/// The source of season results for one league.
pub struct FootballProvider {
    api_key: String,
    league: FootballLeague,
}

impl FootballProvider {
    pub closed spec fn key(&self) -> String {
        self.api_key
    }

    pub closed spec fn competition(&self) -> FootballLeague {
        self.league
    }

    pub fn new(api_key: String, league: FootballLeague) -> (provider: Self)
        ensures
            provider.key() == api_key,
            provider.competition() == league,
    {
        Self { api_key, league }
    }

    /// The key that results are asked with.
    pub fn api_key(&self) -> (key: &String)
        ensures
            *key == self.key(),
    {
        &self.api_key
    }

    /// The league that results are asked for.
    pub fn league(&self) -> (league: &FootballLeague)
        ensures
            *league == self.competition(),
    {
        &self.league
    }

}

impl DataProvider for FootballProvider {
    /// The results of a league are kept under `data`, then `football`,
    /// then the name of the league.
    open spec fn path_parts(&self) -> Seq<Seq<char>> {
        seq!["data"@, "football"@, self.competition().country@]
    }

    fn data_path(&self) -> (path: Vec<String>) {
        let mut path: Vec<String> = Vec::new();
        path.push(String::from_str("data"));
        path.push(String::from_str("football"));
        path.push(self.league.to_string());
        path
    }
}

} // verus!
