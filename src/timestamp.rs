use vstd::prelude::*;

use chrono::Datelike;

use crate::birthday::{next_occurrence, Birthday};
use crate::date::{date_lt, is_leap_year, Date, MAX_YEAR};

verus! {

/// Days in the proleptic Gregorian calendar from the 1st of January of year 1 to the 1st of
/// January of `year` (negative for earlier years; year 0 is a leap year).
pub open spec fn days_before_year(year: int) -> int {
    let y = year - 1;
    365 * y + y / 4 - y / 100 + y / 400
}

/// Days from the 1st of January of `year` to the 1st of `month`.
pub open spec fn days_before_month(year: int, month: int) -> int {
    let common: int = if month == 1 {
        0
    } else if month == 2 {
        31
    } else if month == 3 {
        59
    } else if month == 4 {
        90
    } else if month == 5 {
        120
    } else if month == 6 {
        151
    } else if month == 7 {
        181
    } else if month == 8 {
        212
    } else if month == 9 {
        243
    } else if month == 10 {
        273
    } else if month == 11 {
        304
    } else {
        334
    };
    if month > 2 && is_leap_year(year) {
        common + 1
    } else {
        common
    }
}

/// Days from the 1st of January 1970 to `date` (negative before it).
pub open spec fn days_since_epoch(date: Date) -> int {
    days_before_year(date.year as int) + days_before_month(date.year as int, date.month as int)
        + date.day - 1 - days_before_year(1970)
}

/// Seconds from the Unix epoch to midnight UTC at the start of `date`.
pub open spec fn midnight_timestamp(date: Date) -> int {
    86400 * days_since_epoch(date)
}

/// The Unix timestamp `timestamp` falls on `date`, in UTC.
pub open spec fn falls_on(timestamp: int, date: Date) -> bool {
    midnight_timestamp(date) <= timestamp < midnight_timestamp(date) + 86400
}

proof fn lemma_year_step(year: int)
    ensures
        days_before_year(year + 1) == days_before_year(year) + if is_leap_year(year) {
            366int
        } else {
            365int
        },
{
    let y = year - 1;
    vstd::arithmetic::div_mod::lemma_fundamental_div_mod(y, 4);
    vstd::arithmetic::div_mod::lemma_fundamental_div_mod(year, 4);
    vstd::arithmetic::div_mod::lemma_fundamental_div_mod(y, 100);
    vstd::arithmetic::div_mod::lemma_fundamental_div_mod(year, 100);
    vstd::arithmetic::div_mod::lemma_fundamental_div_mod(y, 400);
    vstd::arithmetic::div_mod::lemma_fundamental_div_mod(year, 400);
}

proof fn lemma_years_ordered(a: int, b: int)
    requires
        a < b,
    ensures
        days_before_year(a) + if is_leap_year(a) {
            366int
        } else {
            365int
        } <= days_before_year(b),
    decreases b - a,
{
    lemma_year_step(a);
    if a + 1 < b {
        lemma_years_ordered(a + 1, b);
        lemma_year_step(a + 1);
    }
}

/// Later dates lie more days after the epoch.
pub proof fn lemma_days_since_epoch_increase(a: Date, b: Date)
    requires
        a.wf(),
        b.wf(),
        date_lt(a, b),
    ensures
        days_since_epoch(a) < days_since_epoch(b),
{
    if a.year < b.year {
        lemma_years_ordered(a.year as int, b.year as int);
    }
}

/// Two valid dates on which one timestamp falls are the same date.
proof fn lemma_same_day(a: Date, b: Date)
    requires
        a.wf(),
        b.wf(),
        midnight_timestamp(b) <= midnight_timestamp(a) < midnight_timestamp(b) + 86400,
    ensures
        a == b,
{
    if date_lt(a, b) {
        lemma_days_since_epoch_increase(a, b);
    } else if date_lt(b, a) {
        lemma_days_since_epoch_increase(b, a);
    }
}

/// Relies on chrono's `DateTime::timestamp` (reached through `NaiveDate::from_ymd_opt`,
/// `and_hms_opt(0, 0, 0)` and `and_utc`): the Unix timestamp of midnight UTC on the date,
/// that is 86400 seconds for each day since 1970-01-01. `from_ymd_opt` accepts every
/// calendar date between `MIN_YEAR` and `MAX_YEAR`.
#[verifier::external_body]
fn chrono_midnight_timestamp(date: Date) -> (r: i64)
    requires
        date.wf(),
    ensures
        r as int == midnight_timestamp(date),
{
    chrono::NaiveDate::from_ymd_opt(date.year, date.month, date.day).unwrap().and_hms_opt(
        0,
        0,
        0,
    ).unwrap().and_utc().timestamp()
}

/// Relies on chrono's `DateTime::from_timestamp` (with no nanoseconds) and `date_naive`: the
/// UTC calendar date on which a Unix timestamp falls; `None` when that day lies outside
/// chrono's range, which is the range of valid dates here.
#[verifier::external_body]
fn chrono_date_of_timestamp(timestamp: i64) -> (r: Option<Date>)
    ensures
        r matches Some(d) ==> d.wf() && falls_on(timestamp as int, d),
        r is None ==> forall|d: Date| d.wf() ==> !falls_on(timestamp as int, d),
{
    match chrono::DateTime::from_timestamp(timestamp, 0) {
        Some(moment) => {
            let day = moment.date_naive();
            Some(Date { year: day.year(), month: day.month(), day: day.day() })
        },
        None => None,
    }
}

/// The stored form of a date: the Unix timestamp of its midnight UTC.
pub fn to_timestamp(date: Date) -> (r: i64)
    requires
        date.wf(),
    ensures
        r as int == midnight_timestamp(date),
{
    chrono_midnight_timestamp(date)
}

/// The day count of a valid date stays within what a timestamp can hold.
proof fn lemma_days_since_epoch_bounded(date: Date)
    requires
        date.wf(),
    ensures
        -100_000_000 <= days_since_epoch(date) <= 100_000_000,
{
    let y = date.year - 1;
    vstd::arithmetic::div_mod::lemma_fundamental_div_mod(y as int, 4);
    vstd::arithmetic::div_mod::lemma_fundamental_div_mod(y as int, 100);
    vstd::arithmetic::div_mod::lemma_fundamental_div_mod(y as int, 400);
}

/// Days from `today` to the next birthday on or after it: 0 when the birthday is today.
pub fn days_until_next(birthday: &Birthday, today: Date) -> (r: i64)
    requires
        birthday.date.wf(),
        today.wf(),
        today.year < MAX_YEAR,
    ensures
        r == days_since_epoch(next_occurrence(birthday.date, today)) - days_since_epoch(today),
        r >= 0,
{
    let next = birthday.next(today);
    let later = to_timestamp(next);
    let now = to_timestamp(today);
    proof {
        lemma_days_since_epoch_bounded(next);
        lemma_days_since_epoch_bounded(today);
        if next != today {
            lemma_days_since_epoch_increase(today, next);
        }
        let k = days_since_epoch(next) - days_since_epoch(today);
        assert(later - now == 86400 * k);
        vstd::arithmetic::div_mod::lemma_div_multiples_vanish(k, 86400);
    }
    (later - now) / 86400
}

/// A record rebuilt from its stored fields: its date is the UTC day on which the timestamp
/// falls. `None` when that day lies outside the calendar's range. A timestamp written by
/// `to_timestamp` gives its date back.
pub fn birthday_from_row(id: i32, name: String, timestamp: i64) -> (r: Option<Birthday>)
    ensures
        r matches Some(b) ==> b.id == id && b.name@ == name@ && b.date.wf() && falls_on(
            timestamp as int,
            b.date,
        ),
        r is None <==> forall|d: Date| d.wf() ==> !falls_on(timestamp as int, d),
        forall|d: Date| d.wf() && midnight_timestamp(d) == timestamp ==> (r matches Some(b)
            && b.date == d),
{
    let date = chrono_date_of_timestamp(timestamp);
    proof {
        assert forall|d: Date| d.wf() && midnight_timestamp(d) == timestamp implies (
        date matches Some(e) && e == d) by {
            assert(falls_on(timestamp as int, d));
            if let Some(e) = date {
                lemma_same_day(d, e);
            }
        }
    }
    match date {
        Some(date) => Some(Birthday { id, name, date }),
        None => None,
    }
}

} // verus!
