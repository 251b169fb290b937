use birthday::query::{birthdays_on, check_filters};
use birthday::timestamp::{birthday_from_row, to_timestamp};
use birthday::{get_next, search, Birthday, BirthdayStore, Date, SearchError};

fn ymd(year: i32, month: u32, day: u32) -> Date {
    Date::from_ymd_opt(year, month, day).unwrap()
}

fn sample_store() -> BirthdayStore {
    let mut store = BirthdayStore::new();
    store.add("Ada Lovelace".to_string(), ymd(1815, 12, 10)).unwrap();
    store.add("Alan Turing".to_string(), ymd(1912, 6, 23)).unwrap();
    store.add("Grace Hopper".to_string(), ymd(1906, 12, 9)).unwrap();
    store
}

fn names(records: &[Birthday]) -> Vec<String> {
    records.iter().map(|b| b.name.clone()).collect()
}

#[test]
fn add_then_get_all_returns_the_new_record() {
    let mut store = BirthdayStore::new();
    assert!(store.get_all().is_empty());
    store.add("Ben Dover".to_string(), ymd(1990, 5, 3)).unwrap();
    let all = store.get_all();
    assert_eq!(all.len(), 1);
    assert_eq!(all[0].name, "Ben Dover");
    assert_eq!(all[0].date, ymd(1990, 5, 3));
    store.add("Ben Dover".to_string(), ymd(1991, 6, 4)).unwrap();
    let all = store.get_all();
    assert_eq!(all.len(), 2);
    assert_ne!(all[0].id, all[1].id);
    assert_eq!(all[1].date, ymd(1991, 6, 4));
}

#[test]
fn remove_returns_the_record_then_finds_nothing() {
    let mut store = sample_store();
    let id = store.get_all()[1].id;
    let removed = store.remove(id).unwrap();
    assert_eq!(removed.name, "Alan Turing");
    assert_eq!(removed.date, ymd(1912, 6, 23));
    assert_eq!(names(&store.get_all()), vec!["Ada Lovelace", "Grace Hopper"]);
    assert!(store.remove(id).is_none());
    assert_eq!(store.get_all().len(), 2);
}

#[test]
fn ids_are_not_reused_after_removal() {
    let mut store = sample_store();
    let last = store.get_all()[2].id;
    store.remove(last).unwrap();
    store.add("Someone".to_string(), ymd(2000, 1, 1)).unwrap();
    let all = store.get_all();
    assert!(all[2].id > last);
}

#[test]
fn search_without_filters_returns_everything() {
    let store = sample_store();
    let found = search(&store.get_all(), None, None, None, None).unwrap();
    assert_eq!(names(&found), names(&store.get_all()));
}

#[test]
fn search_filters_combine() {
    let records = sample_store().get_all();
    let found = search(&records, Some("A".to_string()), None, None, None).unwrap();
    assert_eq!(names(&found), vec!["Ada Lovelace", "Alan Turing"]);
    let found = search(&records, None, None, Some(12), None).unwrap();
    assert_eq!(names(&found), vec!["Ada Lovelace", "Grace Hopper"]);
    let found = search(&records, None, Some(1906), Some(12), Some(9)).unwrap();
    assert_eq!(names(&found), vec!["Grace Hopper"]);
    let found = search(&records, Some("Ada".to_string()), None, Some(6), None).unwrap();
    assert!(found.is_empty());
}

#[test]
fn search_name_is_case_sensitive() {
    let records = sample_store().get_all();
    let found = search(&records, Some("turing".to_string()), None, None, None).unwrap();
    assert!(found.is_empty());
    let found = search(&records, Some("Turing".to_string()), None, None, None).unwrap();
    assert_eq!(names(&found), vec!["Alan Turing"]);
}

#[test]
fn search_refuses_out_of_range_month_and_day() {
    let records = sample_store().get_all();
    assert_eq!(
        search(&records, None, None, Some(13), None).unwrap_err(),
        SearchError::MonthOutOfRange
    );
    assert_eq!(
        search(&records, None, None, Some(0), Some(40)).unwrap_err(),
        SearchError::MonthOutOfRange
    );
    assert_eq!(
        search(&records, None, None, None, Some(32)).unwrap_err(),
        SearchError::DayOutOfRange
    );
    assert_eq!(
        search(&records, None, None, Some(2), Some(0)).unwrap_err(),
        SearchError::DayOutOfRange
    );
}

#[test]
fn get_next_of_no_records_is_none() {
    assert!(get_next(&Vec::new(), ymd(2024, 1, 1)).is_none());
}

#[test]
fn get_next_picks_the_earliest_next_birthday() {
    let records = sample_store().get_all();
    let next = get_next(&records, ymd(2024, 7, 1)).unwrap();
    assert_eq!(next.name, "Grace Hopper");
    let next = get_next(&records, ymd(2024, 12, 10)).unwrap();
    assert_eq!(next.name, "Ada Lovelace");
    let next = get_next(&records, ymd(2024, 12, 11)).unwrap();
    assert_eq!(next.name, "Alan Turing");
}

#[test]
fn get_next_of_two_records() {
    let mut store = BirthdayStore::new();
    store.add("Later".to_string(), ymd(1990, 9, 1)).unwrap();
    store.add("Sooner".to_string(), ymd(1985, 3, 1)).unwrap();
    let next = get_next(&store.get_all(), ymd(2024, 2, 1)).unwrap();
    assert_eq!(next.name, "Sooner");
}

#[test]
fn get_next_breaks_ties_by_order() {
    let mut store = BirthdayStore::new();
    store.add("First".to_string(), ymd(1990, 9, 1)).unwrap();
    store.add("Second".to_string(), ymd(1970, 9, 1)).unwrap();
    let next = get_next(&store.get_all(), ymd(2024, 2, 1)).unwrap();
    assert_eq!(next.name, "First");
}

#[test]
fn timestamps_are_midnight_utc() {
    assert_eq!(to_timestamp(ymd(1970, 1, 1)), 0);
    assert_eq!(to_timestamp(ymd(1970, 1, 2)), 86400);
    assert_eq!(to_timestamp(ymd(2015, 5, 15)), 1431648000);
    assert_eq!(to_timestamp(ymd(1969, 12, 31)), -86400);
}

#[test]
fn rows_decode_their_timestamp() {
    let date = ymd(1990, 5, 3);
    let row = birthday_from_row(7, "Ben Dover".to_string(), to_timestamp(date)).unwrap();
    assert_eq!(row.id, 7);
    assert_eq!(row.name, "Ben Dover");
    assert_eq!(row.date, date);
    let row = birthday_from_row(8, "Noon".to_string(), 1431648000 + 43200).unwrap();
    assert_eq!(row.date, ymd(2015, 5, 15));
    assert!(birthday_from_row(9, "Far".to_string(), i64::MAX).is_none());
}

#[test]
fn filters_are_checked_before_any_search() {
    assert_eq!(check_filters(None, None), Ok(()));
    assert_eq!(check_filters(Some(12), Some(31)), Ok(()));
    assert_eq!(check_filters(Some(13), Some(1)), Err(SearchError::MonthOutOfRange));
    assert_eq!(check_filters(Some(1), Some(32)), Err(SearchError::DayOutOfRange));
    assert_eq!(check_filters(None, Some(0)), Err(SearchError::DayOutOfRange));
    assert_eq!(check_filters(Some(2), Some(29)), Ok(()));
    assert_eq!(check_filters(Some(4), Some(30)), Ok(()));
    assert_eq!(check_filters(None, Some(31)), Ok(()));
}

#[test]
fn search_refuses_a_day_the_month_never_has() {
    let records = sample_store().get_all();
    assert_eq!(
        search(&records, None, None, Some(2), Some(30)).unwrap_err(),
        SearchError::DayOutOfRange
    );
    assert_eq!(
        search(&records, None, None, Some(4), Some(31)).unwrap_err(),
        SearchError::DayOutOfRange
    );
    assert_eq!(check_filters(Some(2), Some(30)), Err(SearchError::DayOutOfRange));
    assert_eq!(check_filters(Some(4), Some(31)), Err(SearchError::DayOutOfRange));
    assert_eq!(check_filters(Some(11), Some(31)), Err(SearchError::DayOutOfRange));
    assert!(search(&records, None, None, Some(2), Some(29)).unwrap().is_empty());
}

#[test]
fn birthdays_on_today_keep_their_order() {
    let mut store = BirthdayStore::new();
    store.add("Ada".to_string(), ymd(1990, 3, 1)).unwrap();
    store.add("Bob".to_string(), ymd(1991, 3, 2)).unwrap();
    store.add("Cy".to_string(), ymd(1980, 3, 1)).unwrap();
    let today = birthdays_on(&store.get_all(), ymd(2024, 3, 1));
    assert_eq!(names(&today), vec!["Ada", "Cy"]);
    assert!(birthdays_on(&store.get_all(), ymd(2024, 3, 3)).is_empty());
}

#[test]
fn leap_day_birthdays_are_celebrated_on_february_28_in_common_years() {
    let mut store = BirthdayStore::new();
    store.add("Leap".to_string(), ymd(2000, 2, 29)).unwrap();
    store.add("Plain".to_string(), ymd(2001, 2, 28)).unwrap();
    assert_eq!(names(&birthdays_on(&store.get_all(), ymd(2023, 2, 28))), vec!["Leap", "Plain"]);
    assert_eq!(names(&birthdays_on(&store.get_all(), ymd(2024, 2, 28))), vec!["Plain"]);
    assert_eq!(names(&birthdays_on(&store.get_all(), ymd(2024, 2, 29))), vec!["Leap"]);
}
