use covid_report::date::{CalendarDate, Timestamp};
use covid_report::report::{ratio, DailyReport, Info, Ratio};

fn ts(year: u32, month: u32, day: u32) -> Timestamp {
    Timestamp { date: CalendarDate { year, month, day }, hour: 12, minute: 0, second: 0 }
}

fn report_with_positive(positive: u32) -> DailyReport {
    DailyReport { info: Info { as_of: ts(2020, 3, 14), tested: 1000, positive }, ratio: None }
}

#[test]
fn ratio_of_prior_day_is_exact_fraction() {
    let yesterday = Some(report_with_positive(100));
    let r = ratio(150, &yesterday);
    assert_eq!(r, Some(Ratio { numerator: 150, prev_positive: 100 }));
    let rt = r.unwrap();
    let value = rt.numerator as f32 / rt.prev_positive as f32;
    assert_eq!(value, 1.5f32);
}

#[test]
fn ratio_of_equal_counts_is_one() {
    let yesterday = Some(report_with_positive(60));
    let r = ratio(60, &yesterday).unwrap();
    assert_eq!(r.numerator, 60);
    assert_eq!(r.prev_positive, 60);
    assert_eq!(r.numerator as f32 / r.prev_positive as f32, 1.0f32);
}

#[test]
fn ratio_without_prior_day_is_none() {
    assert_eq!(ratio(0, &None), None);
    assert_eq!(ratio(1, &None), None);
    assert_eq!(ratio(150, &None), None);
    assert_eq!(ratio(u32::MAX, &None), None);
}

#[test]
fn ratio_with_zero_denominator_is_none() {
    let yesterday = Some(report_with_positive(0));
    assert_eq!(ratio(150, &yesterday), None);
    assert_eq!(ratio(0, &yesterday), None);
}

#[test]
fn report_new_derives_ratio_from_prev_positive() {
    let day1 = DailyReport::new(ts(2020, 3, 14), 1000, 100, None);
    assert_eq!(day1.ratio, None);
    assert_eq!(day1.info.positive, 100);
    assert_eq!(day1.info.tested, 1000);

    let day2 = DailyReport::new(ts(2020, 3, 15), 1200, 150, Some(day1.info.positive));
    let rt = day2.ratio.unwrap();
    assert_eq!(rt, Ratio { numerator: 150, prev_positive: 100 });
    assert_eq!(rt.numerator as f32 / rt.prev_positive as f32, 1.5f32);
}

#[test]
fn report_new_with_zero_prev_has_no_ratio() {
    let day2 = DailyReport::new(ts(2020, 3, 15), 1200, 150, Some(0));
    assert_eq!(day2.ratio, None);
}
