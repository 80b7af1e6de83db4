use covid_report::date::{days_in_month, CalendarDate, Timestamp};
use covid_report::snapshot::{folder_name, Snapshot};

fn snap_at(year: u32, month: u32, day: u32, hour: u32, minute: u32, second: u32) -> Snapshot {
    Snapshot {
        region: String::from("MN"),
        as_of: Timestamp { date: CalendarDate { year, month, day }, hour, minute, second },
        tested: Some(2900),
        positive: Some(60),
        extras: Vec::new(),
    }
}

#[test]
fn folder_is_dot_separated_with_four_digit_year() {
    let s = snap_at(2020, 3, 5, 13, 5, 9);
    assert_eq!(s.folder().as_str(), "2020.03.05");
    let early = snap_at(987, 11, 30, 0, 0, 0);
    assert_eq!(early.folder().as_str(), "0987.11.30");
}

#[test]
fn file_name_is_the_local_time_of_day() {
    let s = snap_at(2020, 3, 5, 13, 5, 9);
    assert_eq!(s.file_name().as_str(), "13:05:09.toml");
    let midnight = snap_at(2020, 3, 5, 0, 0, 0);
    assert_eq!(midnight.file_name().as_str(), "00:00:00.toml");
}

#[test]
fn yesterday_folder_steps_back_one_day() {
    assert_eq!(snap_at(2020, 3, 5, 9, 0, 0).yesterday_folder().as_str(), "2020.03.04");
}

#[test]
fn yesterday_folder_rolls_over_months_and_leap_years() {
    // 2020 is a leap year
    assert_eq!(snap_at(2020, 3, 1, 9, 0, 0).yesterday_folder().as_str(), "2020.02.29");
    // 2021 is not
    assert_eq!(snap_at(2021, 3, 1, 9, 0, 0).yesterday_folder().as_str(), "2021.02.28");
    // 1900 was no leap year (century rule), 2000 was (400 rule)
    assert_eq!(snap_at(1900, 3, 1, 9, 0, 0).yesterday_folder().as_str(), "1900.02.28");
    assert_eq!(snap_at(2000, 3, 1, 9, 0, 0).yesterday_folder().as_str(), "2000.02.29");
}

#[test]
fn yesterday_folder_rolls_over_years() {
    assert_eq!(snap_at(2020, 1, 1, 9, 0, 0).yesterday_folder().as_str(), "2019.12.31");
}

#[test]
fn days_in_month_table() {
    assert_eq!(days_in_month(2020, 1), 31);
    assert_eq!(days_in_month(2020, 2), 29);
    assert_eq!(days_in_month(2021, 2), 28);
    assert_eq!(days_in_month(2020, 4), 30);
    assert_eq!(days_in_month(2020, 12), 31);
}

#[test]
fn from_epoch_yields_a_usable_timestamp() {
    // 2020-03-15 12:00:00 UTC; the local civil fields depend on the machine's
    // time zone, so only the documented ranges are checked
    let s = Snapshot::from_epoch(String::from("MN"), 1584273600, Some(2900), Some(60));
    assert_eq!(s.region, "MN");
    assert_eq!(s.tested, Some(2900));
    assert_eq!(s.positive, Some(60));
    assert!((1..=12).contains(&s.as_of.date.month));
    assert!((1..=31).contains(&s.as_of.date.day));
    assert!(s.as_of.date.day <= days_in_month(s.as_of.date.year, s.as_of.date.month));
    assert!(s.as_of.hour <= 23 && s.as_of.minute <= 59 && s.as_of.second <= 59);
    assert!((2019..=2021).contains(&s.as_of.date.year));
    // the folder name is derived from those fields
    let f = s.folder();
    assert_eq!(f.len(), 10);
    let _ = folder_name(&s.as_of.date);
}

#[test]
fn modified_local_hands_back_the_timestamp() {
    let s = snap_at(2020, 3, 5, 13, 5, 9);
    assert_eq!(s.modified_local(), s.as_of);
}
