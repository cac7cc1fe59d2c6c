//! Percentile bands over a growing history of overlapping forecast curves.
//!
//! Every forecast snapshot carries the day it was made and a curve of dated
//! values. From the curves of many snapshots the library derives a reference
//! curve, percentile bands per calendar day, and percentile bands of the
//! forecast error per lead time.
//!
//! Days are day numbers in the proleptic Gregorian calendar (1 is January 1
//! of year 1). Values are whole numbers of a unit that the caller fixes, for
//! instance thousandths of a degree.

pub mod animation;
pub mod bands;
pub mod chart;
pub mod conversions;
pub mod dates;
pub mod football;
pub mod models;
pub mod percentile;
pub mod provider;
pub mod sorting;
