use vstd::prelude::*;
use vstd::string::StringExecFns;
use chrono::Datelike;
use crate::text::{decimal_string, decimal_text, signed_decimal_string, signed_decimal_text};

verus! {

/// A calendar day in the local time zone.
#[derive(Clone, Copy, Debug, PartialEq, Eq, Structural)]
pub struct CalendarDay {
    pub year: i32,
    pub month: u32,
    pub day: u32,
}

impl CalendarDay {
    pub open spec fn wf(&self) -> bool {
        1 <= self.month <= 12 && 1 <= self.day <= 31
    }
}

/// Relies on chrono's `Local::now` with `Datelike::{year, month, day}`: the
/// current local date, whose month lies in 1..=12 and day in 1..=31.
#[verifier::external_body]
fn today() -> (r: CalendarDay)
    ensures
        r.wf(),
{
    let now = chrono::Local::now();
    CalendarDay { year: now.year(), month: now.month(), day: now.day() }
}

/// The session date of a day, written `day/month-year`.
pub open spec fn date_text(d: CalendarDay) -> Seq<char> {
    decimal_text(d.day as nat) + "/"@ + decimal_text(d.month as nat) + "-"@ + signed_decimal_text(d.year as int)
}

/// Writes a day as `day/month-year`.
pub fn format_date(d: &CalendarDay) -> (r: String)
    ensures
        r@ == date_text(*d),
{
    proof {
        reveal_strlit("/");
        reveal_strlit("-");
    }
    let mut r = decimal_string(d.day);
    r.append("/");
    let month = decimal_string(d.month);
    r.append(month.as_str());
    r.append("-");
    let year = signed_decimal_string(d.year);
    r.append(year.as_str());
    r
}

/// Today's session date, written `day/month-year`.
pub fn get_date() -> (r: String)
    ensures
        exists|d: CalendarDay| d.wf() && r@ == date_text(d),
{
    let d = today();
    format_date(&d)
}

/// The directory of a day's report: the year, then the month, as path parts.
pub fn get_directory_path(d: &CalendarDay) -> (r: Vec<String>)
    ensures
        r@.len() == 2,
        r@[0]@ == signed_decimal_text(d.year as int),
        r@[1]@ == decimal_text(d.month as nat),
{
    let mut parts: Vec<String> = Vec::new();
    parts.push(signed_decimal_string(d.year));
    parts.push(decimal_string(d.month));
    parts
}

/// The file name of a day's report: the day of the month, then `.md`.
pub fn get_file_name(d: &CalendarDay) -> (r: String)
    ensures
        r@ == decimal_text(d.day as nat) + ".md"@,
{
    proof {
        reveal_strlit(".md");
    }
    decimal_string(d.day).concat(".md")
}

/// Today's date, for naming a report.
pub fn current_day() -> (r: CalendarDay)
    ensures
        r.wf(),
{
    today()
}

} // verus!
