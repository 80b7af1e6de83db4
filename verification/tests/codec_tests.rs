use covid_report::codec::{parse_report, render_report};
use covid_report::date::{CalendarDate, Timestamp};
use covid_report::report::{DailyReport, Info, Ratio};

fn sample_ts() -> Timestamp {
    Timestamp {
        date: CalendarDate { year: 2020, month: 3, day: 15 },
        hour: 13,
        minute: 5,
        second: 0,
    }
}

#[test]
fn rendered_text_is_the_documented_layout() {
    let rep = DailyReport {
        info: Info { as_of: sample_ts(), tested: 2900, positive: 60 },
        ratio: Some(Ratio { numerator: 60, prev_positive: 21 }),
    };
    let text = render_report(&rep);
    let expected = "as_of = 2020-3-15 13:5:0\ntested = 2900\npositive = 60\nratio = 60 / 21\n";
    assert_eq!(text, expected.as_bytes().to_vec());
}

#[test]
fn rendered_text_without_ratio_has_no_ratio_line() {
    let rep = DailyReport { info: Info { as_of: sample_ts(), tested: 2900, positive: 60 }, ratio: None };
    let text = render_report(&rep);
    let expected = "as_of = 2020-3-15 13:5:0\ntested = 2900\npositive = 60\n";
    assert_eq!(text, expected.as_bytes().to_vec());
}

#[test]
fn round_trip_with_ratio() {
    let rep = DailyReport {
        info: Info { as_of: sample_ts(), tested: 2900, positive: 60 },
        ratio: Some(Ratio { numerator: 60, prev_positive: 21 }),
    };
    let text = render_report(&rep);
    assert_eq!(parse_report(text.as_slice()), Some(rep));
}

#[test]
fn round_trip_without_ratio() {
    let rep = DailyReport { info: Info { as_of: sample_ts(), tested: 0, positive: 0 }, ratio: None };
    let text = render_report(&rep);
    assert_eq!(parse_report(text.as_slice()), Some(rep));
}

#[test]
fn round_trip_at_the_largest_counts() {
    let rep = DailyReport {
        info: Info { as_of: sample_ts(), tested: u32::MAX, positive: u32::MAX },
        ratio: Some(Ratio { numerator: u32::MAX, prev_positive: u32::MAX }),
    };
    let text = render_report(&rep);
    assert_eq!(parse_report(text.as_slice()), Some(rep));
}

#[test]
fn parse_rejects_garbage() {
    assert_eq!(parse_report(b"nonsense"), None);
    assert_eq!(parse_report(b""), None);
}

#[test]
fn parse_rejects_trailing_bytes() {
    let text = "as_of = 2020-3-15 13:5:0\ntested = 2900\npositive = 60\njunk";
    assert_eq!(parse_report(text.as_bytes()), None);
}

#[test]
fn parse_rejects_zero_denominator() {
    let text = "as_of = 2020-3-15 13:5:0\ntested = 2900\npositive = 60\nratio = 60 / 0\n";
    assert_eq!(parse_report(text.as_bytes()), None);
}

#[test]
fn parse_rejects_out_of_range_date() {
    let text = "as_of = 2020-13-15 13:5:0\ntested = 2900\npositive = 60\n";
    assert_eq!(parse_report(text.as_bytes()), None);
    let feb30 = "as_of = 2021-2-30 13:5:0\ntested = 2900\npositive = 60\n";
    assert_eq!(parse_report(feb30.as_bytes()), None);
}

#[test]
fn parse_rejects_count_overflow() {
    let text = "as_of = 2020-3-15 13:5:0\ntested = 99999999999\npositive = 60\n";
    assert_eq!(parse_report(text.as_bytes()), None);
}
