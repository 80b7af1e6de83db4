use covid_report::extract::{
    parse_timestamp_at, scan_labeled_number, ExtractError, Field, ScanError,
};
use covid_report::snapshot::{extract_from_text, find_region, Snapshot};
use covid_report::date::{CalendarDate, Timestamp};

#[test]
fn scan_takes_the_first_digit_run_after_the_label() {
    let text = b"total tested so far: 2,900 people";
    assert_eq!(scan_labeled_number(text, b"tested so far:"), Ok(2));
    let text2 = b"positive cases 1375 and rising";
    assert_eq!(scan_labeled_number(text2, b"positive cases"), Ok(1375));
}

#[test]
fn scan_skips_markup_between_label_and_number() {
    let text = b"<td>positive</td><td><b>60</b></td>";
    assert_eq!(scan_labeled_number(text, b"positive"), Ok(60));
}

#[test]
fn scan_without_label_is_label_missing() {
    let text = b"nothing of interest here 42";
    assert_eq!(scan_labeled_number(text, b"positive"), Err(ScanError::LabelMissing));
}

#[test]
fn scan_with_no_digits_before_end_is_no_digits() {
    // the label is followed by non-digit, non-numeric trailing content only
    let text = b"positive: pending review...";
    assert_eq!(scan_labeled_number(text, b"positive:"), Err(ScanError::NoDigits));
}

#[test]
fn scan_clamps_a_count_wider_than_u32() {
    let text = b"positive: 99999999999999";
    assert_eq!(scan_labeled_number(text, b"positive:"), Ok(u32::MAX));
}

#[test]
fn extract_reports_no_digits_after_label_as_typed_failure() {
    let text = b"tested: 2900 ... positive: none reported";
    let r = extract_from_text(text, String::from("MN"), b"tested:", b"positive:", b"as of");
    assert_eq!(r, Err(ExtractError::NoDigitsAfterLabel { field: Field::Positive }));
}

#[test]
fn extract_reports_missing_label_as_field_not_found() {
    let text = b"tested: 2900 only";
    let r = extract_from_text(text, String::from("MN"), b"tested:", b"positive:", b"as of");
    assert_eq!(r, Err(ExtractError::FieldNotFound { field: Field::Positive }));
}

#[test]
fn extract_full_text_form() {
    let text =
        b"Data for MN. tested: 2900 total, positive: 60 cases, as of Sun, Mar 15 2020 - 13:05:09";
    let snap = extract_from_text(text, String::from("MN"), b"tested:", b"positive:", b"as of")
        .unwrap();
    assert_eq!(snap.region, "MN");
    assert_eq!(snap.tested, Some(2900));
    assert_eq!(snap.positive, Some(60));
    assert_eq!(
        snap.as_of,
        Timestamp {
            date: CalendarDate { year: 2020, month: 3, day: 15 },
            hour: 13,
            minute: 5,
            second: 9,
        }
    );
}

#[test]
fn timestamp_parses_the_documented_shape() {
    let text = b"Sun, Mar 15 2020 - 13:05:09";
    let ts = parse_timestamp_at(text, 0).unwrap();
    assert_eq!(ts.date, CalendarDate { year: 2020, month: 3, day: 15 });
    assert_eq!((ts.hour, ts.minute, ts.second), (13, 5, 9));
}

#[test]
fn timestamp_unknown_month_is_typed() {
    let text = b"Sun, Xyz 15 2020 - 13:05:09";
    assert_eq!(parse_timestamp_at(text, 0), Err(ExtractError::UnknownMonth));
}

#[test]
fn timestamp_month_match_is_case_sensitive() {
    let text = b"Sun, mar 15 2020 - 13:05:09";
    assert_eq!(parse_timestamp_at(text, 0), Err(ExtractError::UnknownMonth));
}

#[test]
fn timestamp_missing_comma_fails_with_position() {
    let text = b"Mar 15 2020";
    assert_eq!(
        parse_timestamp_at(text, 0),
        Err(ExtractError::DateParseError { at: text.len() })
    );
}

#[test]
fn timestamp_short_input_fails_without_panicking() {
    assert!(matches!(
        parse_timestamp_at(b"Sun,", 0),
        Err(ExtractError::DateParseError { .. })
    ));
    assert!(matches!(
        parse_timestamp_at(b"Sun, Mar 15", 0),
        Err(ExtractError::DateParseError { .. })
    ));
    assert!(matches!(parse_timestamp_at(b"", 0), Err(ExtractError::DateParseError { .. })));
}

#[test]
fn timestamp_out_of_range_field_fails() {
    assert!(matches!(
        parse_timestamp_at(b"Sun, Feb 30 2021 - 13:05:09", 0),
        Err(ExtractError::DateParseError { .. })
    ));
    assert!(matches!(
        parse_timestamp_at(b"Sun, Mar 15 2020 - 25:05:09", 0),
        Err(ExtractError::DateParseError { .. })
    ));
}

#[test]
fn timestamp_accepts_leap_day() {
    let ts = parse_timestamp_at(b"Sat, Feb 29 2020 - 00:00:00", 0).unwrap();
    assert_eq!(ts.date, CalendarDate { year: 2020, month: 2, day: 29 });
}

fn snap(region: &str, positive: u32) -> Snapshot {
    Snapshot {
        region: String::from(region),
        as_of: Timestamp {
            date: CalendarDate { year: 2020, month: 3, day: 15 },
            hour: 1,
            minute: 2,
            second: 3,
        },
        tested: None,
        positive: Some(positive),
        extras: Vec::new(),
    }
}

#[test]
fn find_region_selects_the_matching_record() {
    let records = vec![snap("CA", 10), snap("MN", 60), snap("NY", 900)];
    let i = find_region(&records, &String::from("MN")).unwrap();
    assert_eq!(i, 1);
    assert_eq!(records[i].positive, Some(60));
}

#[test]
fn find_region_without_match_is_region_not_found() {
    let records = vec![snap("CA", 10), snap("NY", 900)];
    assert_eq!(
        find_region(&records, &String::from("MN")),
        Err(ExtractError::RegionNotFound)
    );
}
