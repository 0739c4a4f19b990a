//! Calendar facts, computed by `chrono`.

use vstd::prelude::*;
use chrono::Datelike;
use chrono::TimeZone;

verus! {

#[verifier::external_type_specification]
#[verifier::external_body]
pub struct ExChronoParseError(chrono::format::ParseError);

/// The English name of month `m` (1 to 12).
pub open spec fn english_month_name(m: int) -> Seq<char> {
    if m == 1 { seq!['J', 'a', 'n', 'u', 'a', 'r', 'y'] }
    else if m == 2 { seq!['F', 'e', 'b', 'r', 'u', 'a', 'r', 'y'] }
    else if m == 3 { seq!['M', 'a', 'r', 'c', 'h'] }
    else if m == 4 { seq!['A', 'p', 'r', 'i', 'l'] }
    else if m == 5 { seq!['M', 'a', 'y'] }
    else if m == 6 { seq!['J', 'u', 'n', 'e'] }
    else if m == 7 { seq!['J', 'u', 'l', 'y'] }
    else if m == 8 { seq!['A', 'u', 'g', 'u', 's', 't'] }
    else if m == 9 { seq!['S', 'e', 'p', 't', 'e', 'm', 'b', 'e', 'r'] }
    else if m == 10 { seq!['O', 'c', 't', 'o', 'b', 'e', 'r'] }
    else if m == 11 { seq!['N', 'o', 'v', 'e', 'm', 'b', 'e', 'r'] }
    else { seq!['D', 'e', 'c', 'e', 'm', 'b', 'e', 'r'] }
}

/// What `chrono`'s `NaiveDate::parse_from_str(s, "%Y%m%d")` reads from `s`: the
/// year and month of the date, or nothing when `s` is not such a date.
pub uninterp spec fn ymd_date_parse(s: Seq<char>) -> Option<(i32, u32)>;

/// `NaiveDate::from_ymd_opt(year, month, 1)` followed by `format("%B")`.
/// Claims, as `chrono` documents `%B`, the full English name of the month.
#[verifier::external_body]
pub(crate) fn month_name(year: u16, month: u8) -> (r: String)
    requires
        1 <= month <= 12,
    ensures
        r@ == english_month_name(month as int),
{
    let date = chrono::NaiveDate::from_ymd_opt(year.into(), month.into(), 1).expect("invalid basho month date");
    format!("{}", date.format("%B"))
}

/// `NaiveDate::parse_from_str(s, "%Y%m%d")`, keeping the year and month of the
/// date. Claims that the result is `ymd_date_parse(s)`, and that a month is 1 to 12
/// as `chrono` documents `Datelike::month`; the error itself is not described.
#[verifier::external_body]
pub(crate) fn parse_ymd(s: &str) -> (r: Result<(i32, u32), chrono::format::ParseError>)
    ensures
        r is Ok <==> ymd_date_parse(s@) is Some,
        r matches Ok(v) ==> ymd_date_parse(s@) == Some(v) && 1 <= v.1 <= 12,
{
    match chrono::NaiveDate::parse_from_str(s, "%Y%m%d") {
        Ok(d) => Ok((d.year(), d.month())),
        Err(e) => Err(e),
    }
}

/// The Unix time, in seconds, of `hour`:00 local time at UTC offset `offset`
/// seconds, on the `n`-th Sunday of `month` of `year`, as `chrono` computes it;
/// `None` where there is no such day or time.
pub uninterp spec fn nth_sunday_time(year: i32, month: u32, n: u8, hour: u32, offset: i32) -> Option<i64>;

/// `NaiveDate::from_weekday_of_month_opt(year, month, Sun, n)`, then
/// `and_hms_opt(hour, 0, 0)`, then `FixedOffset::east_opt(offset)` and
/// `from_local_datetime`, then `timestamp`. Its result is named `nth_sunday_time`;
/// nothing more of it is stated.
#[verifier::external_body]
pub(crate) fn sunday_time(year: i32, month: u32, n: u8, hour: u32, offset: i32) -> (r: Option<i64>)
    ensures
        r == nth_sunday_time(year, month, n, hour, offset),
{
    let day = chrono::NaiveDate::from_weekday_of_month_opt(year, month, chrono::Weekday::Sun, n)?;
    let time = day.and_hms_opt(hour, 0, 0)?;
    let zone = chrono::FixedOffset::east_opt(offset)?;
    match zone.from_local_datetime(&time).single() {
        Some(t) => Some(t.timestamp()),
        None => None,
    }
}

} // verus!
