//! What an animated sequence of forecast curves shows, one frame per
//! snapshot.

use crate::conversions::{reference_lookup, reference_map};
use crate::models::TimeSeriesPoint;
use std::collections::HashMap;
use vstd::prelude::*;
use vstd::string::*;

verus! {

/// The kind of animation.
pub enum AnimationType {
    /// Every frame shows the forecast values themselves.
    Absolute,
    /// Every frame shows by how much the forecast differs from the
    /// reference curve, whose values are held by calendar day.
    Relative(HashMap<i32, i32>),
}

impl AnimationType {
    /// The value drawn for a point: the value itself, or its difference
    /// from the reference value of its day. Nothing is drawn in a relative
    /// animation for a day without a reference value.
    pub open spec fn chart_value(&self, point: TimeSeriesPoint) -> Option<i64> {
        match self {
            AnimationType::Absolute => Some(point.value as i64),
            AnimationType::Relative(reference) => if reference@.contains_key(point.date) {
                Some((point.value - reference@[point.date]) as i64)
            } else {
                None
            },
        }
    }

    /// The points drawn for a curve, each with its place in the curve, which
    /// is its position along the horizontal axis.
    pub open spec fn frame(&self, curve: Seq<TimeSeriesPoint>) -> Seq<(usize, i64)>
        decreases curve.len(),
    {
        if curve.len() == 0 {
            Seq::empty()
        } else {
            let before = self.frame(curve.drop_last());
            match self.chart_value(curve.last()) {
                Some(value) => before.push(((curve.len() - 1) as usize, value)),
                None => before,
            }
        }
    }

    /// A relative animation against the given reference curve.
    pub fn create_relative(ref_curve: &[TimeSeriesPoint]) -> (animation: AnimationType)
        ensures
            animation matches AnimationType::Relative(reference) && reference@ == reference_map(
                ref_curve@,
            ),
    {
        AnimationType::Relative(reference_lookup(ref_curve))
    }

    /// The name of the file that the animation is written to.
    pub fn output_file_name(&self) -> (name: String)
        ensures
            self is Absolute ==> name@ == "forecast_animation.gif"@,
            self is Relative ==> name@ == "forecast_relative_animation.gif"@,
    {
        match self {
            AnimationType::Absolute => String::from_str("forecast_animation.gif"),
            AnimationType::Relative(_) => String::from_str("forecast_relative_animation.gif"),
        }
    }

    /// The caption of the animation.
    pub fn caption(&self) -> (caption: String)
        ensures
            self is Absolute ==> caption@
                == "Weather forcast curve for next 16 days in Celsius: max-temperature for Zurich, CH'"@,
            self is Relative ==> caption@
                == "Weather forcast difference (relative to reference) curve for next 16 days in Celsius: max-temperature for Zurich, CH'"@,
    {
        match self {
            AnimationType::Absolute => String::from_str(
                "Weather forcast curve for next 16 days in Celsius: max-temperature for Zurich, CH'",
            ),
            AnimationType::Relative(_) => String::from_str(
                "Weather forcast difference (relative to reference) curve for next 16 days in Celsius: max-temperature for Zurich, CH'",
            ),
        }
    }

    /// The range of the vertical axis: from the first bound up to, but not
    /// including, the second, in whole degrees.
    pub fn y_axis_range(&self) -> (range: (i32, i32))
        ensures
            self is Absolute ==> range == (-20i32, 45i32),
            self is Relative ==> range == (-20i32, 20i32),
    {
        match self {
            AnimationType::Absolute => (-20, 45),
            AnimationType::Relative(_) => (-20, 20),
        }
    }

    /// Computes the value drawn for a point.
    pub fn chart_point(&self, time_series_point: &TimeSeriesPoint) -> (value: Option<i64>)
        ensures
            value == self.chart_value(*time_series_point),
    {
        broadcast use vstd::std_specs::hash::group_hash_axioms;

        match self {
            AnimationType::Absolute => Some(time_series_point.value as i64),
            AnimationType::Relative(reference) => match reference.get(&time_series_point.date) {
                Some(reference_value) => Some(
                    time_series_point.value as i64 - *reference_value as i64,
                ),
                None => None,
            },
        }
    }

    /// Computes the points drawn for one curve.
    pub fn chart_points(&self, curve: &[TimeSeriesPoint]) -> (points: Vec<(usize, i64)>)
        ensures
            points@ == self.frame(curve@),
    {
        let mut points: Vec<(usize, i64)> = Vec::new();
        let mut i: usize = 0;
        proof {
            assert(curve@.take(0) =~= Seq::empty());
        }
        while i < curve.len()
            invariant
                i <= curve.len(),
                points@ == self.frame(curve@.take(i as int)),
            decreases curve.len() - i,
        {
            proof {
                let next = curve@.take(i + 1);
                assert(next.drop_last() =~= curve@.take(i as int));
                assert(next.last() == curve@[i as int]);
            }
            match self.chart_point(&curve[i]) {
                Some(value) => {
                    points.push((i, value));
                },
                None => {},
            }
            i = i + 1;
        }
        proof {
            assert(curve@.take(curve@.len() as int) =~= curve@);
        }
        points
    }
}

} // verus!
