//! The current civil date, and the month-start helper that picks the
//! date a `YYYY-MM` key names, falling back to today.

use vstd::prelude::*;
use chrono::Datelike;
use crate::parse::{month_key_month, month_key_year, parse_month_key, valid_month_key};

verus! {

/// Relies on chrono: `Local::now().date_naive()` is the current civil
/// date; its `month()` lies in 1..=12 and its `day()` in 1..=31.
#[verifier::external_body]
pub fn today_ymd() -> (r: (i64, u64, u64))
    ensures
        1 <= r.1 <= 12,
        1 <= r.2 <= 31,
{
    let d = chrono::Local::now().date_naive();
    (d.year() as i64, d.month() as u64, d.day() as u64)
}

/// The first day of the month a `YYYY-MM` key names, as year, month
/// and day; when the key is not well formed, the current date instead.
pub fn parsed_date_from_str(s: &str) -> (r: (i64, u64, u64))
    ensures
        valid_month_key(s@) ==> r == (month_key_year(s@) as i64, month_key_month(s@) as u64, 1u64),
        1 <= r.1 <= 12,
        1 <= r.2 <= 31,
{
    match parse_month_key(s) {
        Option::Some(ym) => (ym.0 as i64, ym.1, 1),
        Option::None => today_ymd(),
    }
}

} // verus!
