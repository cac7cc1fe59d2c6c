//! Calendar days as day numbers.
//!
//! A day is counted in the proleptic Gregorian calendar, with January 1 of
//! year 1 as day 1. Reading a date out of text is left to chrono.

use vstd::prelude::*;
use vstd::string::*;

verus! {

/// What chrono reads out of `text` as a date in the form year, month, day
/// (`%Y-%m-%d`): the day number of that date, or nothing where chrono
/// rejects the text.
pub uninterp spec fn iso_day(text: Seq<char>) -> Option<i32>;

/// Calls `chrono::NaiveDate::parse_from_str` with the format `%Y-%m-%d` and
/// turns the date it reads into its day number with
/// `chrono::Datelike::num_days_from_ce`. The contract claims only that the
/// outcome is a function of the text, which `iso_day` names.
#[verifier::external_body]
pub(crate) fn parse_iso_day(text: &str) -> (day: Option<i32>)
    ensures
        day == iso_day(text@),
{
    match chrono::NaiveDate::parse_from_str(text, "%Y-%m-%d") {
        Ok(date) => Some(chrono::Datelike::num_days_from_ce(&date)),
        Err(_) => None,
    }
}

/// What chrono writes for the day with the given number, in the form year,
/// month, day (`%Y-%m-%d`); nothing where chrono has no date for the number.
pub uninterp spec fn iso_text(day: i32) -> Option<Seq<char>>;

/// Calls `chrono::NaiveDate::from_num_days_from_ce_opt` and writes the date
/// it gives with `chrono::NaiveDate::format` under the format `%Y-%m-%d`.
/// The contract claims only that the outcome is a function of the day
/// number, which `iso_text` names.
#[verifier::external_body]
pub(crate) fn format_iso_day(day: i32) -> (text: Option<String>)
    ensures
        text is Some <==> iso_text(day) is Some,
        text matches Some(written) ==> iso_text(day) == Some(written@),
{
    match chrono::NaiveDate::from_num_days_from_ce_opt(day) {
        Some(date) => Some(date.format("%Y-%m-%d").to_string()),
        None => None,
    }
}

/// The first year that has a day number.
pub const MIN_YEAR: i32 = -262143;

/// The last year that has a day number.
pub const MAX_YEAR: i32 = 262142;

/// The number of days in the years 1 to `year - 1`; negative for years
/// before year 1. Every fourth year is a leap year, but of the years that
/// end a century only every fourth one.
pub open spec fn days_before_year(year: int) -> int {
    let y = year - 1;
    365 * y + y / 4 - y / 100 + y / 400
}

/// The day number of January 1 of `year`, where the year has one.
pub open spec fn first_day_of_year(year: int) -> Option<i32> {
    if MIN_YEAR <= year <= MAX_YEAR {
        Some((days_before_year(year) + 1) as i32)
    } else {
        None
    }
}

/// Calls `chrono::NaiveDate::from_ymd_opt` for January 1 of `year` and turns
/// the date into its day number with `chrono::Datelike::num_days_from_ce`.
/// The contract claims that chrono has such a date exactly for the years
/// from `MIN_YEAR` to `MAX_YEAR`, and that its day number follows the
/// Gregorian leap year rule from January 1 of year 1, which is day 1.
#[verifier::external_body]
pub(crate) fn year_start_day(year: i32) -> (day: Option<i32>)
    ensures
        day == first_day_of_year(year as int),
{
    match chrono::NaiveDate::from_ymd_opt(year, 1, 1) {
        Some(date) => Some(chrono::Datelike::num_days_from_ce(&date)),
        None => None,
    }
}

/// The text begins with the letters `UTC`.
pub open spec fn starts_with_utc(text: Seq<char>) -> bool {
    text.len() >= 3 && text[0] == 'U' && text[1] == 'T' && text[2] == 'C'
}

/// The text without the occurrences of `UTC` that a reader meets going
/// from left to right.
pub open spec fn without_utc(text: Seq<char>) -> Seq<char>
    decreases text.len(),
{
    if text.len() == 0 {
        text
    } else if starts_with_utc(text) {
        without_utc(text.skip(3))
    } else {
        seq![text[0]] + without_utc(text.skip(1))
    }
}

/// Removes every `UTC` from a date text. Snapshots may carry their day with
/// the time zone appended, as in `2022-07-25UTC`.
pub fn strip_utc(text: &str) -> (stripped: String)
    ensures
        stripped@ == without_utc(text@),
{
    let n: usize = text.unicode_len();
    let mut stripped = String::new();
    let mut i: usize = 0;
    proof {
        assert(text@.skip(0) =~= text@);
    }
    while i < n
        invariant
            i <= n,
            n == text@.len(),
            stripped@ + without_utc(text@.skip(i as int)) == without_utc(text@),
        decreases n - i,
    {
        let ghost rest = text@.skip(i as int);
        let ghost before = stripped@;
        let found: bool = n - i >= 3 && text.get_char(i) == 'U' && text.get_char(i + 1) == 'T'
            && text.get_char(i + 2) == 'C';
        if found {
            proof {
                assert(starts_with_utc(rest));
                assert(rest.skip(3) =~= text@.skip(i + 3));
            }
            i = i + 3;
        } else {
            let piece = text.substring_char(i, i + 1);
            stripped.append(piece);
            proof {
                assert(!starts_with_utc(rest));
                assert(rest.skip(1) =~= text@.skip(i + 1));
                assert(piece@ =~= seq![rest[0]]);
                assert(stripped@ + without_utc(text@.skip(i + 1)) =~= before + (seq![rest[0]]
                    + without_utc(rest.skip(1))));
            }
            i = i + 1;
        }
    }
    proof {
        assert(text@.skip(n as int).len() == 0);
        assert(stripped@ + without_utc(text@.skip(n as int)) =~= stripped@);
    }
    stripped
}

/// The day that a date text names, after `UTC` is taken out of it.
pub open spec fn day_of_text(text: Seq<char>) -> Option<i32> {
    iso_day(without_utc(text))
}

} // verus!
