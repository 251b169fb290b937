use vstd::prelude::*;

use crate::birthday::{next_occurrence, Birthday, BirthdayView};
use crate::date::{date_le, date_lt, Date, MAX_YEAR};
use crate::store::copy_birthday;

verus! {

/// A search filter out of range.
#[derive(Clone, Copy, Debug, PartialEq, Eq, Structural)]
pub enum SearchError {
    /// The month filter is not between 1 and 12.
    MonthOutOfRange,
    /// The day filter is not between 1 and 31.
    DayOutOfRange,
}

/// `needle` occurs in `haystack` as a contiguous run of characters.
pub open spec fn is_substring(needle: Seq<char>, haystack: Seq<char>) -> bool {
    exists|i: int|
        0 <= i && i + needle.len() <= haystack.len() && #[trigger] haystack.subrange(
            i,
            i + needle.len(),
        ) == needle
}

/// Relies on `str::contains` with a `&str` pattern: whether the pattern occurs in the text.
#[verifier::external_body]
fn str_contains(text: &str, pattern: &str) -> (r: bool)
    ensures
        r == is_substring(pattern@, text@),
{
    text.contains(pattern)
}

/// A record passes every filter that is given: the name holds `name`, and the year, month
/// and day of the date of birth are the ones asked for.
pub open spec fn passes_filters(
    b: BirthdayView,
    name: Option<Seq<char>>,
    year: Option<i32>,
    month: Option<u32>,
    day: Option<u32>,
) -> bool {
    &&& (name matches Some(n) ==> is_substring(n, b.name))
    &&& (year matches Some(y) ==> b.date.year == y)
    &&& (month matches Some(m) ==> b.date.month == m)
    &&& (day matches Some(d) ==> b.date.day == d)
}

/// The records that pass the filters, in the order given.
pub open spec fn filtered(
    records: Seq<BirthdayView>,
    name: Option<Seq<char>>,
    year: Option<i32>,
    month: Option<u32>,
    day: Option<u32>,
) -> Seq<BirthdayView>
    decreases records.len(),
{
    if records.len() == 0 {
        records
    } else {
        let rest = filtered(records.drop_last(), name, year, month, day);
        if passes_filters(records.last(), name, year, month, day) {
            rest.push(records.last())
        } else {
            rest
        }
    }
}

pub open spec fn name_view(name: Option<String>) -> Option<Seq<char>> {
    match name {
        Some(n) => Some(n@),
        None => None,
    }
}

pub open spec fn views(records: Seq<Birthday>) -> Seq<BirthdayView> {
    records.map_values(|b: Birthday| b@)
}

fn passes(
    b: &Birthday,
    name: &Option<String>,
    year: Option<i32>,
    month: Option<u32>,
    day: Option<u32>,
) -> (r: bool)
    ensures
        r == passes_filters(b@, name_view(*name), year, month, day),
{
    let name_ok = match name {
        Some(n) => str_contains(b.name.as_str(), n.as_str()),
        None => true,
    };
    let year_ok = match year {
        Some(y) => b.date.year == y,
        None => true,
    };
    let month_ok = match month {
        Some(m) => b.date.month == m,
        None => true,
    };
    let day_ok = match day {
        Some(d) => b.date.day == d,
        None => true,
    };
    name_ok && year_ok && month_ok && day_ok
}

/// The most days that `month` has in any year: 29 for February.
pub open spec fn longest_month(month: int) -> int {
    if month == 2 {
        29
    } else if month == 4 || month == 6 || month == 9 || month == 11 {
        30
    } else {
        31
    }
}

/// What is wrong with the month and day filters of a search, if anything: a month outside
/// 1..=12 first; then a day outside 1..=31, or, with a month given, a day that month never
/// has (the 30th of February, the 31st of April).
pub open spec fn filter_error(month: Option<u32>, day: Option<u32>) -> Option<SearchError> {
    match (month, day) {
        (Some(m), _) if !(1 <= m <= 12) => Some(SearchError::MonthOutOfRange),
        (_, Some(d)) if !(1 <= d <= 31) => Some(SearchError::DayOutOfRange),
        (Some(m), Some(d)) if d > longest_month(m as int) => Some(SearchError::DayOutOfRange),
        _ => None,
    }
}

/// Checks the month and day filters of a search: the month must lie in 1..=12, the day in
/// 1..=31, and a day given with a month must exist in that month in some year. The month
/// is checked first.
pub fn check_filters(month: Option<u32>, day: Option<u32>) -> (r: Result<(), SearchError>)
    ensures
        r is Ok <==> filter_error(month, day) is None,
        r matches Err(e) ==> filter_error(month, day) == Some(e),
{
    if let Some(m) = month {
        if m < 1 || m > 12 {
            return Err(SearchError::MonthOutOfRange);
        }
    }
    if let Some(d) = day {
        if d < 1 || d > 31 {
            return Err(SearchError::DayOutOfRange);
        }
        if let Some(m) = month {
            let longest: u32 = if m == 2 {
                29
            } else if m == 4 || m == 6 || m == 9 || m == 11 {
                30
            } else {
                31
            };
            if d > longest {
                return Err(SearchError::DayOutOfRange);
            }
        }
    }
    Ok(())
}

/// The records whose name holds `name` (case-sensitive) and whose date of birth has the
/// given year, month and day; a filter that is `None` lets every record through. When the
/// month and day filters are wrong (see `check_filters`), nothing is filtered and the
/// error is returned: a month outside 1..=12, a day outside 1..=31, or a day that the
/// month never has, such as the 30th of February.
pub fn search(
    records: &Vec<Birthday>,
    name: Option<String>,
    year: Option<i32>,
    month: Option<u32>,
    day: Option<u32>,
) -> (r: Result<Vec<Birthday>, SearchError>)
    ensures
        r is Ok <==> filter_error(month, day) is None,
        r matches Err(e) ==> filter_error(month, day) == Some(e),
        r matches Ok(v) ==> views(v@) == filtered(
            views(records@),
            name_view(name),
            year,
            month,
            day,
        ),
{
    if let Err(e) = check_filters(month, day) {
        return Err(e);
    }
    let ghost all = views(records@);
    let mut out: Vec<Birthday> = Vec::new();
    let mut i: usize = 0;
    while i < records.len()
        invariant
            i <= records@.len(),
            all == views(records@),
            views(out@) == filtered(all.subrange(0, i as int), name_view(name), year, month, day),
        decreases records@.len() - i,
    {
        let b = &records[i];
        proof {
            assert(all.subrange(0, i + 1).drop_last() =~= all.subrange(0, i as int));
            assert(all.subrange(0, i + 1).last() == b@);
        }
        if passes(b, &name, year, month, day) {
            out.push(copy_birthday(b));
            proof {
                assert(views(out@) =~= filtered(
                    all.subrange(0, i as int),
                    name_view(name),
                    year,
                    month,
                    day,
                ).push(b@));
            }
        }
        i += 1;
    }
    assert(all.subrange(0, i as int) =~= all);
    Ok(out)
}

/// Position `i` holds the record whose next birthday after `today` comes first, and no
/// record before it has its next birthday on that same day.
pub open spec fn is_first_earliest(records: Seq<BirthdayView>, today: Date, i: int) -> bool {
    &&& 0 <= i < records.len()
    &&& forall|j: int|
        0 <= j < records.len() ==> date_le(
            next_occurrence(records[i].date, today),
            #[trigger] next_occurrence(records[j].date, today),
        )
    &&& forall|j: int|
        0 <= j < i ==> date_lt(
            next_occurrence(records[i].date, today),
            #[trigger] next_occurrence(records[j].date, today),
        )
}

/// The record whose next birthday, on or after `today`, comes first; among records whose
/// birthdays fall on the same day, the earliest in `records`. `None` when there are no
/// records.
pub fn get_next(records: &Vec<Birthday>, today: Date) -> (r: Option<Birthday>)
    requires
        today.wf(),
        today.year < MAX_YEAR,
        forall|i: int| 0 <= i < records@.len() ==> (#[trigger] records@[i]).date.wf(),
    ensures
        r is None <==> records@.len() == 0,
        r matches Some(b) ==> exists|i: int|
            is_first_earliest(views(records@), today, i) && b@ == #[trigger] views(records@)[i],
{
    if records.len() == 0 {
        return None;
    }
    let ghost all = views(records@);
    let mut best: usize = 0;
    let mut best_next: Date = records[0].next(today);
    let mut i: usize = 1;
    while i < records.len()
        invariant
            1 <= i <= records@.len(),
            all == views(records@),
            today.wf(),
            today.year < MAX_YEAR,
            forall|k: int| 0 <= k < records@.len() ==> (#[trigger] records@[k]).date.wf(),
            best < i,
            best_next == next_occurrence(all[best as int].date, today),
            forall|j: int|
                0 <= j < i ==> date_le(
                    best_next,
                    #[trigger] next_occurrence(all[j].date, today),
                ),
            forall|j: int|
                0 <= j < best ==> date_lt(
                    best_next,
                    #[trigger] next_occurrence(all[j].date, today),
                ),
        decreases records@.len() - i,
    {
        let candidate = records[i].next(today);
        if !best_next.is_on_or_before(&candidate) {
            best = i;
            best_next = candidate;
        }
        i += 1;
    }
    let r = copy_birthday(&records[best]);
    assert(is_first_earliest(all, today, best as int));
    Some(r)
}

/// The records whose birthday falls on `today`, in the order given. A birthday on the
/// 29th of February falls on the 28th in common years.
pub open spec fn celebrated_on(records: Seq<BirthdayView>, today: Date) -> Seq<BirthdayView>
    decreases records.len(),
{
    if records.len() == 0 {
        records
    } else {
        let rest = celebrated_on(records.drop_last(), today);
        if next_occurrence(records.last().date, today) == today {
            rest.push(records.last())
        } else {
            rest
        }
    }
}

/// The records whose birthday falls on `today`: those whose next birthday, on or after
/// `today`, is `today` itself.
pub fn birthdays_on(records: &Vec<Birthday>, today: Date) -> (r: Vec<Birthday>)
    requires
        today.wf(),
        today.year < MAX_YEAR,
        forall|i: int| 0 <= i < records@.len() ==> (#[trigger] records@[i]).date.wf(),
    ensures
        views(r@) == celebrated_on(views(records@), today),
{
    let ghost all = views(records@);
    let mut out: Vec<Birthday> = Vec::new();
    let mut i: usize = 0;
    while i < records.len()
        invariant
            i <= records@.len(),
            all == views(records@),
            today.wf(),
            today.year < MAX_YEAR,
            forall|k: int| 0 <= k < records@.len() ==> (#[trigger] records@[k]).date.wf(),
            views(out@) == celebrated_on(all.subrange(0, i as int), today),
        decreases records@.len() - i,
    {
        let b = &records[i];
        proof {
            assert(all.subrange(0, i + 1).drop_last() =~= all.subrange(0, i as int));
            assert(all.subrange(0, i + 1).last() == b@);
        }
        if b.next(today) == today {
            out.push(copy_birthday(b));
            proof {
                assert(views(out@) =~= celebrated_on(all.subrange(0, i as int), today).push(b@));
            }
        }
        i += 1;
    }
    assert(all.subrange(0, i as int) =~= all);
    out
}

/// With no filters, a search lets every record through.
pub proof fn lemma_search_without_filters(records: Seq<BirthdayView>)
    ensures
        filtered(records, None, None, None, None) == records,
    decreases records.len(),
{
    if records.len() > 0 {
        lemma_search_without_filters(records.drop_last());
        assert(records.drop_last().push(records.last()) =~= records);
    }
}

/// Only one position holds the first record with the earliest next birthday, so the record
/// that `get_next` returns is determined by the records and `today`.
pub proof fn lemma_first_earliest_unique(records: Seq<BirthdayView>, today: Date, i: int, j: int)
    requires
        is_first_earliest(records, today, i),
        is_first_earliest(records, today, j),
    ensures
        i == j,
{
    if i < j {
        assert(date_lt(
            next_occurrence(records[j].date, today),
            next_occurrence(records[i].date, today),
        ));
        assert(date_le(
            next_occurrence(records[i].date, today),
            next_occurrence(records[j].date, today),
        ));
    } else if j < i {
        assert(date_lt(
            next_occurrence(records[i].date, today),
            next_occurrence(records[j].date, today),
        ));
        assert(date_le(
            next_occurrence(records[j].date, today),
            next_occurrence(records[i].date, today),
        ));
    }
}

/// Of two records, the next one is the record whose next birthday comes first, and the
/// first of the two when both fall on the same day.
pub proof fn lemma_next_of_two(a: BirthdayView, b: BirthdayView, today: Date)
    ensures
        date_lt(next_occurrence(b.date, today), next_occurrence(a.date, today))
            ==> is_first_earliest(seq![a, b], today, 1),
        !date_lt(next_occurrence(b.date, today), next_occurrence(a.date, today))
            ==> is_first_earliest(seq![a, b], today, 0),
{
    let s = seq![a, b];
    assert(s[0] == a && s[1] == b);
}

} // verus!
