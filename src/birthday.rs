use vstd::prelude::*;

use crate::date::{date_le, is_leap, is_leap_year, Date, MAX_YEAR, MIN_YEAR};

verus! {

/// A person's birthday as kept in a store.
#[derive(Clone, Debug)]
pub struct Birthday {
    pub id: i32,
    pub name: String,
    pub date: Date,
}

/// What a stored birthday is: its identifier, the name's characters and the date of birth.
pub struct BirthdayView {
    pub id: int,
    pub name: Seq<char>,
    pub date: Date,
}

impl View for Birthday {
    type V = BirthdayView;

    open spec fn view(&self) -> BirthdayView {
        BirthdayView { id: self.id as int, name: self.name@, date: self.date }
    }
}

/// The `n`-th anniversary of `birth` (month and day taken as they are) is not later than
/// `today`, in calendar order.
pub open spec fn anniversary_reached(birth: Date, n: int, today: Date) -> bool {
    birth.year + n < today.year || (birth.year + n == today.year && (birth.month < today.month
        || (birth.month == today.month && birth.day <= today.day)))
}

/// The day on which the birthday falls in `year`: the birth month and day, except that
/// the 29th of February falls on the 28th in a common year.
pub open spec fn occurrence_in(birth: Date, year: i32) -> Date {
    if birth.month == 2 && birth.day == 29 && !is_leap_year(year as int) {
        Date { year, month: 2, day: 28 }
    } else {
        Date { year, month: birth.month, day: birth.day }
    }
}

/// The first day, on or after `today`, on which the birthday falls.
pub open spec fn next_occurrence(birth: Date, today: Date) -> Date {
    let this_year = occurrence_in(birth, today.year);
    if date_le(today, this_year) {
        this_year
    } else {
        occurrence_in(birth, (today.year + 1) as i32)
    }
}

pub open spec fn same_month_day(birth: Date, today: Date) -> bool {
    birth.month == today.month && birth.day == today.day
}

pub open spec fn is_leap_day(d: Date) -> bool {
    d.month == 2 && d.day == 29
}

fn occurrence(birth: &Date, year: i32) -> (r: Date)
    requires
        birth.wf(),
        MIN_YEAR <= year <= MAX_YEAR,
    ensures
        r == occurrence_in(*birth, year),
        r.wf(),
{
    if birth.month == 2 && birth.day == 29 && !is_leap(year) {
        Date { year, month: 2, day: 28 }
    } else {
        Date { year, month: birth.month, day: birth.day }
    }
}

impl Birthday {
    /// Number of complete years from the date of birth to `today`; `None` when `today`
    /// comes before the date of birth.
    pub fn age(&self, today: Date) -> (r: Option<u32>)
        requires
            self.date.wf(),
            today.wf(),
        ensures
            r is Some <==> date_le(self.date, today),
            r matches Some(n) ==> anniversary_reached(self.date, n as int, today)
                && !anniversary_reached(self.date, n + 1, today),
    {
        let birth = self.date;
        if !birth.is_on_or_before(&today) {
            return None;
        }
        let years: i32 = today.year - birth.year;
        if today.month < birth.month || (today.month == birth.month && today.day < birth.day) {
            Some((years - 1) as u32)
        } else {
            Some(years as u32)
        }
    }

    /// The next day, on or after `today`, on which this birthday falls. A birthday on the
    /// 29th of February falls on the 28th in common years.
    pub fn next(&self, today: Date) -> (r: Date)
        requires
            self.date.wf(),
            today.wf(),
            today.year < MAX_YEAR,
        ensures
            r == next_occurrence(self.date, today),
            r.wf(),
            date_le(today, r),
            r.month == self.date.month,
            r.day == self.date.day || (is_leap_day(self.date) && r.day == 28 && !is_leap_year(
                r.year as int,
            )),
    {
        let this_year = occurrence(&self.date, today.year);
        if today.is_on_or_before(&this_year) {
            this_year
        } else {
            occurrence(&self.date, today.year + 1)
        }
    }

    /// Whether the birthday's month and day are those of `today`, whatever the year.
    pub fn is_today(&self, today: Date) -> (r: bool)
        ensures
            r == same_month_day(self.date, today),
    {
        self.date.month == today.month && self.date.day == today.day
    }
}

/// A birthday is today exactly when its next occurrence is today. This fails only for a
/// birth on the 29th of February in a common year, whose occurrence moves to the 28th.
pub proof fn lemma_is_today_iff_next_is_today(birth: Date, today: Date)
    requires
        birth.wf(),
        today.wf(),
        today.year < MAX_YEAR,
        !(is_leap_day(birth) && !is_leap_year(today.year as int)),
    ensures
        same_month_day(birth, today) <==> next_occurrence(birth, today) == today,
{
}

/// The next occurrence is the soonest: no day on or after `today` on which the birthday
/// falls comes before it.
pub proof fn lemma_next_occurrence_is_soonest(birth: Date, today: Date, other: Date)
    requires
        birth.wf(),
        today.wf(),
        today.year < MAX_YEAR,
        date_le(today, other),
        other == occurrence_in(birth, other.year),
    ensures
        date_le(next_occurrence(birth, today), other),
{
}

} // verus!
