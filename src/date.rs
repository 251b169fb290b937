use vstd::prelude::*;
use vstd::string::StringSliceAdditionalSpecFns;

verus! {

/// Earliest year a calendar date may carry.
pub const MIN_YEAR: i32 = -262143;

/// Latest year a calendar date may carry.
pub const MAX_YEAR: i32 = 262142;

/// A proleptic Gregorian calendar date, without time of day or time zone.
#[derive(Clone, Copy, Debug, PartialEq, Eq, Structural)]
pub struct Date {
    pub year: i32,
    pub month: u32,
    pub day: u32,
}

pub open spec fn is_leap_year(year: int) -> bool {
    (year % 4 == 0 && year % 100 != 0) || year % 400 == 0
}

pub open spec fn days_in_month(year: int, month: int) -> int {
    if month == 2 {
        if is_leap_year(year) {
            29
        } else {
            28
        }
    } else if month == 4 || month == 6 || month == 9 || month == 11 {
        30
    } else {
        31
    }
}

pub open spec fn valid_ymd(year: int, month: int, day: int) -> bool {
    MIN_YEAR <= year <= MAX_YEAR && 1 <= month <= 12 && 1 <= day <= days_in_month(year, month)
}

/// `a` is not later than `b` in calendar order.
pub open spec fn date_le(a: Date, b: Date) -> bool {
    a.year < b.year || (a.year == b.year && (a.month < b.month || (a.month == b.month && a.day
        <= b.day)))
}

pub open spec fn date_lt(a: Date, b: Date) -> bool {
    date_le(a, b) && a != b
}

impl Date {
    pub open spec fn wf(self) -> bool {
        valid_ymd(self.year as int, self.month as int, self.day as int)
    }

    /// The date with the given year, month and day, if it exists in the calendar.
    pub fn from_ymd_opt(year: i32, month: u32, day: u32) -> (r: Option<Date>)
        ensures
            r is Some <==> valid_ymd(year as int, month as int, day as int),
            r matches Some(d) ==> d == (Date { year, month, day }),
    {
        if year < MIN_YEAR || year > MAX_YEAR || month < 1 || month > 12 || day < 1 {
            return None;
        }
        if day > month_length(year, month) {
            None
        } else {
            Some(Date { year, month, day })
        }
    }

    /// Calendar order: `self` is not later than `other`.
    pub fn is_on_or_before(&self, other: &Date) -> (r: bool)
        ensures
            r == date_le(*self, *other),
    {
        self.year < other.year || (self.year == other.year && (self.month < other.month || (
        self.month == other.month && self.day <= other.day)))
    }
}

pub fn is_leap(year: i32) -> (r: bool)
    requires
        MIN_YEAR <= year <= MAX_YEAR,
    ensures
        r == is_leap_year(year as int),
{
    // Shift by a multiple of 400 so that the remainders are taken of a natural number.
    let shifted: u32 = (year as i64 + 400000) as u32;
    proof {
        vstd::arithmetic::div_mod::lemma_mod_multiples_vanish(1000, year as int, 400);
        vstd::arithmetic::div_mod::lemma_mod_multiples_vanish(4000, year as int, 100);
        vstd::arithmetic::div_mod::lemma_mod_multiples_vanish(100000, year as int, 4);
        assert(shifted as int == 400 * 1000 + year);
        assert(shifted as int == 100 * 4000 + year);
        assert(shifted as int == 4 * 100000 + year);
    }
    (shifted % 4 == 0 && shifted % 100 != 0) || shifted % 400 == 0
}

pub fn month_length(year: i32, month: u32) -> (r: u32)
    requires
        MIN_YEAR <= year <= MAX_YEAR,
    ensures
        r as int == days_in_month(year as int, month as int),
{
    if month == 2 {
        if is_leap(year) {
            29
        } else {
            28
        }
    } else if month == 4 || month == 6 || month == 9 || month == 11 {
        30
    } else {
        31
    }
}


pub open spec fn is_digit(b: u8) -> bool {
    48 <= b <= 57
}

/// Value of the decimal digits `text[start..start + n]`.
pub open spec fn digits_value(text: Seq<u8>, start: int, n: nat) -> int
    decreases n,
{
    if n == 0 {
        0
    } else {
        digits_value(text, start, (n - 1) as nat) * 10 + (text[start + n - 1] - 48)
    }
}

/// `text` has the shape `YYYY-MM-DD`: ten bytes, digits but for the two dashes.
pub open spec fn has_date_shape(text: Seq<u8>) -> bool {
    &&& text.len() == 10
    &&& text[4] == 45 && text[7] == 45
    &&& forall|i: int| 0 <= i < 10 && i != 4 && i != 7 ==> is_digit(#[trigger] text[i])
}

/// The date that `text` writes as `YYYY-MM-DD`, if it has that shape and names a calendar
/// date.
pub open spec fn date_of_text(text: Seq<u8>) -> Option<Date> {
    if has_date_shape(text) && valid_ymd(
        digits_value(text, 0, 4),
        digits_value(text, 5, 2),
        digits_value(text, 8, 2),
    ) {
        Some(
            Date {
                year: digits_value(text, 0, 4) as i32,
                month: digits_value(text, 5, 2) as u32,
                day: digits_value(text, 8, 2) as u32,
            },
        )
    } else {
        None
    }
}

fn read_digits(text: &[u8], start: usize, n: usize) -> (r: u32)
    requires
        n <= 4,
        text@.len() == 10,
        start + n <= 10,
        forall|i: int| start <= i < start + n ==> is_digit(#[trigger] text@[i]),
    ensures
        r as int == digits_value(text@, start as int, n as nat),
        r < 10000,
{
    let mut value: u32 = 0;
    let mut k: usize = 0;
    while k < n
        invariant
            k <= n <= 4,
            text@.len() == 10,
            start + n <= 10,
            forall|i: int| start <= i < start + n ==> is_digit(#[trigger] text@[i]),
            value as int == digits_value(text@, start as int, k as nat),
            value < 10000,
            k == 0 ==> value == 0,
            k == 1 ==> value < 10,
            k == 2 ==> value < 100,
            k == 3 ==> value < 1000,
        decreases n - k,
    {
        let b = text[start + k];
        assert(is_digit(text@[start + k]));
        value = value * 10 + (b - 48) as u32;
        k += 1;
    }
    value
}

/// Reads a date written `YYYY-MM-DD`; `None` when the text has another shape or names no
/// calendar date.
pub fn parse_date(text: &str) -> (r: Option<Date>)
    ensures
        r == date_of_text(text.spec_bytes()),
{
    let bytes = text.as_bytes();
    if bytes.len() != 10 || bytes[4] != 45 || bytes[7] != 45 {
        return None;
    }
    let mut i: usize = 0;
    while i < 10
        invariant
            bytes@ == text.spec_bytes(),
            bytes@.len() == 10,
            i <= 10,
            forall|k: int| 0 <= k < i && k != 4 && k != 7 ==> is_digit(#[trigger] bytes@[k]),
        decreases 10 - i,
    {
        if i != 4 && i != 7 && (bytes[i] < 48 || bytes[i] > 57) {
            return None;
        }
        i += 1;
    }
    let year = read_digits(bytes, 0, 4);
    let month = read_digits(bytes, 5, 2);
    let day = read_digits(bytes, 8, 2);
    Date::from_ymd_opt(year as i32, month, day)
}

} // verus!
