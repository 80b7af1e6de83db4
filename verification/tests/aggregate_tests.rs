use covid_report::archive::Archive;
use covid_report::date::{CalendarDate, Timestamp};
use covid_report::report::DailyReport;

fn date(year: u32, month: u32, day: u32) -> CalendarDate {
    CalendarDate { year, month, day }
}

fn report_at(d: CalendarDate, hour: u32, positive: u32) -> DailyReport {
    DailyReport::new(
        Timestamp { date: d, hour, minute: 0, second: 0 },
        positive * 2,
        positive,
        None,
    )
}

#[test]
fn all_reports_skips_gap_days_and_orders_ascending() {
    // archived dates 2020.01.01, 2020.01.03, 2020.01.05; days 2 and 4 missing
    let mut a = Archive::new();
    // written out of order on purpose
    a.write(date(2020, 1, 5), &report_at(date(2020, 1, 5), 9, 300));
    a.write(date(2020, 1, 1), &report_at(date(2020, 1, 1), 9, 100));
    a.write(date(2020, 1, 3), &report_at(date(2020, 1, 3), 9, 200));

    let rows = a.all_reports();
    assert_eq!(rows.len(), 3);
    assert_eq!(rows[0].date, date(2020, 1, 1));
    assert_eq!(rows[1].date, date(2020, 1, 3));
    assert_eq!(rows[2].date, date(2020, 1, 5));
    assert_eq!(rows[0].report.info.positive, 100);
    assert_eq!(rows[1].report.info.positive, 200);
    assert_eq!(rows[2].report.info.positive, 300);
}

#[test]
fn ordering_follows_as_of_within_one_day() {
    let mut a = Archive::new();
    // the folder keys are different days, but the as_of hours decide order
    a.write(date(2021, 6, 2), &report_at(date(2021, 6, 2), 8, 2));
    a.write(date(2021, 6, 1), &report_at(date(2021, 6, 1), 22, 1));
    let rows = a.all_reports();
    assert_eq!(rows.len(), 2);
    assert!(rows[0].report.info.as_of.date.day == 1);
    assert!(rows[1].report.info.as_of.date.day == 2);
}

#[test]
fn a_corrupt_entry_is_skipped_not_fatal() {
    let mut a = Archive::new();
    a.write(date(2020, 1, 1), &report_at(date(2020, 1, 1), 9, 100));
    a.write_raw(date(2020, 1, 2), b"### corrupted ###".to_vec());
    a.write(date(2020, 1, 3), &report_at(date(2020, 1, 3), 9, 200));

    let rows = a.all_reports();
    assert_eq!(rows.len(), 2);
    assert_eq!(rows[0].date, date(2020, 1, 1));
    assert_eq!(rows[1].date, date(2020, 1, 3));
}

#[test]
fn empty_archive_aggregates_to_nothing() {
    let a = Archive::new();
    assert_eq!(a.all_reports().len(), 0);
}
