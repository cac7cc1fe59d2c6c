//! Forecast snapshots as they are stored, and the curves read out of them.

use crate::dates::{day_of_text, iso_day, parse_iso_day, strip_utc};
use vstd::prelude::*;

verus! {

/// One point of a curve: a calendar day and the value forecast for it.
#[derive(Clone, Copy, Debug, PartialEq, Eq, Structural)]
pub struct TimeSeriesPoint {
    /// The day number of the calendar day.
    pub date: i32,
    /// The value, in the caller's unit.
    pub value: i32,
}

/// A curve: points in the order of the payload they were read from.
pub type TimeSeries = Vec<TimeSeriesPoint>;

/// One entry of a forecast payload.
#[derive(Clone, Debug)]
pub struct ForecastTemperaturePoint {
    /// The day the entry is valid for, written as year, month and day.
    pub valid_date: String,
    /// The highest temperature forecast for that day.
    pub max_temp: i32,
}

/// A decoded forecast payload.
pub type ForecastCurve = Vec<ForecastTemperaturePoint>;

/// A forecast snapshot as retrieved on its as-of date.
#[derive(Clone, Debug)]
pub struct WeatherResponse {
    /// The day the snapshot was made, written as year, month and day.
    pub as_of_date: String,
    /// The payload, or nothing where it did not have the shape of a
    /// forecast curve.
    pub forecast: Option<ForecastCurve>,
}

impl ForecastTemperaturePoint {
    /// The day the entry is valid for, if its text names one.
    pub open spec fn day(&self) -> Option<i32> {
        iso_day(self.valid_date@)
    }

    /// The point of a curve that the entry stands for, if it names a day.
    pub open spec fn point(&self) -> Option<TimeSeriesPoint> {
        TimeSeriesPoint::dated(self.day(), self.max_temp)
    }

    /// Reads the day the entry is valid for.
    pub fn date(&self) -> (day: Option<i32>)
        ensures
            day == self.day(),
    {
        parse_iso_day(self.valid_date.as_str())
    }
}

impl WeatherResponse {
    /// The day the snapshot was made, if its text names one.
    pub open spec fn day(&self) -> Option<i32> {
        day_of_text(self.as_of_date@)
    }

    /// Reads the day the snapshot was made. The text may carry the zone
    /// `UTC`, which is ignored.
    pub fn date(&self) -> (day: Option<i32>)
        ensures
            day == self.day(),
    {
        let text = strip_utc(self.as_of_date.as_str());
        parse_iso_day(text.as_str())
    }
}

impl TimeSeriesPoint {
    /// The point with the given value on the given day, where there is a
    /// day.
    pub open spec fn dated(day: Option<i32>, value: i32) -> Option<TimeSeriesPoint> {
        match day {
            Some(date) => Some(TimeSeriesPoint { date, value }),
            None => None,
        }
    }

    /// Makes the point with the given value on the day that was read, or
    /// nothing where no day was read.
    pub fn on_day(day: Option<i32>, value: i32) -> (point: Option<TimeSeriesPoint>)
        ensures
            point == Self::dated(day, value),
    {
        match day {
            Some(date) => Some(TimeSeriesPoint { date, value }),
            None => None,
        }
    }

    /// The point that a payload entry stands for: its day and its highest
    /// temperature. There is none where the entry names no day.
    pub fn from_forecast(fc_pt: &ForecastTemperaturePoint) -> (point: Option<TimeSeriesPoint>)
        ensures
            point == fc_pt.point(),
    {
        Self::on_day(fc_pt.date(), fc_pt.max_temp)
    }
}

} // verus!
