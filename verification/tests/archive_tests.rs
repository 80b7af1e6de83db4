use covid_report::archive::Archive;
use covid_report::date::{CalendarDate, Timestamp};
use covid_report::report::{DailyReport, Info, Ratio};

fn day(d: u32) -> CalendarDate {
    CalendarDate { year: 2020, month: 1, day: d }
}

fn report(d: u32, positive: u32, prev: Option<u32>) -> DailyReport {
    DailyReport::new(
        Timestamp { date: day(d), hour: 9, minute: 30, second: 0 },
        positive * 10,
        positive,
        prev,
    )
}

#[test]
fn read_of_empty_archive_is_none() {
    let a = Archive::new();
    assert_eq!(a.read(&day(1)), None);
}

#[test]
fn write_then_read_gives_back_the_report() {
    let mut a = Archive::new();
    let rep = report(1, 100, None);
    a.write(day(1), &rep);
    assert_eq!(a.read(&day(1)), Some(rep));
}

#[test]
fn read_of_gap_day_is_none() {
    let mut a = Archive::new();
    a.write(day(1), &report(1, 100, None));
    assert_eq!(a.read(&day(2)), None);
}

#[test]
fn second_write_overwrites_the_first() {
    let mut a = Archive::new();
    let first = report(1, 100, None);
    let second = report(1, 175, Some(50));
    a.write(day(1), &first);
    a.write(day(1), &second);
    assert_eq!(a.read(&day(1)), Some(second));
    // no duplication: the single date yields a single aggregated row
    let rows = a.all_reports();
    assert_eq!(rows.len(), 1);
    assert_eq!(rows[0].report.info.positive, 175);
}

#[test]
fn corrupt_entry_reads_as_none() {
    let mut a = Archive::new();
    a.write_raw(day(1), b"not a report at all".to_vec());
    assert_eq!(a.read(&day(1)), None);
}

#[test]
fn two_day_scenario_matches_the_pipeline() {
    // day 1: positive=100, no prior day on record
    let mut a = Archive::new();
    let day1 = report(1, 100, None);
    assert_eq!(day1.ratio, None);
    a.write(day(1), &day1);

    // day 2: positive=150, day 1 archived with positive=100
    let yesterday = a.read(&day(1));
    let prev_positive = yesterday.map(|r| r.info.positive);
    let day2 = report(2, 150, prev_positive);
    assert_eq!(day2.ratio, Some(Ratio { numerator: 150, prev_positive: 100 }));
    let rt = day2.ratio.unwrap();
    assert_eq!(rt.numerator as f32 / rt.prev_positive as f32, 1.5f32);
    a.write(day(2), &day2);
    assert_eq!(a.read(&day(2)), Some(day2));
}

#[test]
fn reports_survive_storage_byte_for_byte() {
    let mut a = Archive::new();
    let rep = DailyReport {
        info: Info {
            as_of: Timestamp { date: day(7), hour: 23, minute: 59, second: 59 },
            tested: 123456789,
            positive: 987654,
        },
        ratio: Some(Ratio { numerator: 987654, prev_positive: 3 }),
    };
    a.write(day(7), &rep);
    assert_eq!(a.read(&day(7)), Some(rep));
}
