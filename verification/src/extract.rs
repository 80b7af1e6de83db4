//! Snapshot extraction from fetched content.
//!
//! The list form selects one region's record out of a fetched list. The
//! text form digs the numeric fields out of loosely structured markup: a
//! fixed label substring is located, then the scan skips forward over
//! non-digits and takes the first maximal run of decimal digits as the
//! value. Every malformed-input branch is a typed failure; no input can
//! drive the scanner past a checked bound.

use vstd::prelude::*;
use crate::date::{spec_days_in_month, days_in_month, CalendarDate, Timestamp};
use crate::digits::{digit_run_end, digits_val, is_digit, parse_u32_sat, sat32};

verus! {

/// The numeric or timestamp fields the text form must find.
#[derive(Clone, Copy, Debug, PartialEq, Eq, Structural)]
pub enum Field {
    Tested,
    Positive,
    AsOf,
}

/// Why extraction failed.
#[derive(Clone, Copy, Debug, PartialEq, Eq, Structural)]
pub enum ExtractError {
    /// No record in the fetched list carries the configured region.
    RegionNotFound,
    /// The fixed label of a required field does not occur in the text.
    FieldNotFound { field: Field },
    /// The label occurs, but no digit follows it before the text ends.
    NoDigitsAfterLabel { field: Field },
    /// A timestamp token is missing, short, or out of range; `at` is the
    /// position where the failing token was expected.
    DateParseError { at: usize },
    /// The three letters where a month was expected match no abbreviation.
    UnknownMonth,
}

/// Why a single labeled-number scan failed.
#[derive(Clone, Copy, Debug, PartialEq, Eq, Structural)]
pub enum ScanError {
    LabelMissing,
    NoDigits,
}

/// Whether `l` occurs in `t` at position `i`.
pub open spec fn occurs_at(t: Seq<u8>, l: Seq<u8>, i: int) -> bool {
    0 <= i && i + l.len() <= t.len() && t.subrange(i, i + l.len()) == l
}

/// The first position at or after `i` where `l` occurs in `t`.
pub open spec fn first_occurrence_from(t: Seq<u8>, l: Seq<u8>, i: int) -> Option<int>
    decreases t.len() - i + 1,
{
    if i < 0 || i + l.len() > t.len() {
        None
    } else if t.subrange(i, i + l.len()) == l {
        Some(i)
    } else {
        first_occurrence_from(t, l, i + 1)
    }
}

/// The first digit at or after `i`.
pub open spec fn first_digit_from(t: Seq<u8>, i: int) -> Option<int>
    decreases t.len() - i,
{
    if i < 0 || i >= t.len() {
        None
    } else if is_digit(t[i]) {
        Some(i)
    } else {
        first_digit_from(t, i + 1)
    }
}

/// What scanning for `label` in `t` yields: the first maximal digit run
/// after the label's first occurrence, clamped to `u32`; `LabelMissing`
/// when the label does not occur, `NoDigits` when no digit follows it.
pub open spec fn spec_scan(t: Seq<u8>, l: Seq<u8>) -> Result<u32, ScanError> {
    match first_occurrence_from(t, l, 0) {
        None => Err(ScanError::LabelMissing),
        Some(i) => match first_digit_from(t, i + l.len()) {
            None => Err(ScanError::NoDigits),
            Some(k) => Ok(sat32(digits_val(t.subrange(k, digit_run_end(t, k))))),
        },
    }
}

/// Whether `label` occurs in `text` exactly at `i`.
fn matches_at(text: &[u8], label: &[u8], i: usize) -> (r: bool)
    requires
        i + label@.len() <= text@.len(),
    ensures
        r == (text@.subrange(i as int, i + label@.len()) == label@),
{
    let tl = text.len();
    let mut k: usize = 0;
    while k < label.len()
        invariant
            0 <= k <= label@.len(),
            i + label@.len() <= text@.len(),
            text@.len() == tl,
            forall|m: int| 0 <= m < k ==> text@[i + m] == label@[m],
        decreases label@.len() - k,
    {
        if text[i + k] != label[k] {
            proof {
                assert(text@.subrange(i as int, i + label@.len())[k as int] != label@[k as int]);
            }
            return false;
        }
        k = k + 1;
    }
    proof {
        assert(text@.subrange(i as int, i + label@.len()) =~= label@);
    }
    true
}

/// Find the first occurrence of `label` in `text`.
pub fn find_first(text: &[u8], label: &[u8]) -> (r: Option<usize>)
    ensures
        match first_occurrence_from(text@, label@, 0) {
            Some(i) => r matches Some(p) && p == i && occurs_at(text@, label@, i),
            None => r is None,
        },
{
    let tlen = text.len();
    let llen = label.len();
    if llen > tlen {
        return None;
    }
    let mut i: usize = 0;
    loop
        invariant
            0 <= i,
            i + llen <= tlen,
            llen == label@.len(),
            tlen == text@.len(),
            first_occurrence_from(text@, label@, 0) == first_occurrence_from(
                text@,
                label@,
                i as int,
            ),
        ensures
            first_occurrence_from(text@, label@, 0) == Some(i as int),
            occurs_at(text@, label@, i as int),
        decreases tlen - i,
    {
        if matches_at(text, label, i) {
            break ;
        }
        if i + llen == tlen {
            proof {
                assert(first_occurrence_from(text@, label@, i + 1) is None);
                assert(first_occurrence_from(text@, label@, i as int) is None);
            }
            return None;
        }
        i = i + 1;
    }
    Some(i)
}

/// Find the first digit at or after `i`.
fn find_digit(text: &[u8], i: usize) -> (r: Option<usize>)
    requires
        i <= text@.len(),
    ensures
        match first_digit_from(text@, i as int) {
            Some(k) => r matches Some(p) && p == k && i <= k && k < text@.len() && is_digit(
                text@[k],
            ),
            None => r is None,
        },
{
    let tlen = text.len();
    let mut k: usize = i;
    while k < tlen && !(48 <= text[k] && text[k] <= 57)
        invariant
            i <= k <= tlen,
            tlen == text@.len(),
            first_digit_from(text@, i as int) == first_digit_from(text@, k as int),
        decreases tlen - k,
    {
        k = k + 1;
    }
    if k == tlen {
        None
    } else {
        Some(k)
    }
}

/// Scan `text` for the number following the first occurrence of `label`:
/// locate the label, skip forward over non-digits, and take the first
/// maximal run of decimal digits as the value (clamped to `u32::MAX`).
pub fn scan_labeled_number(text: &[u8], label: &[u8]) -> (r: Result<u32, ScanError>)
    ensures
        r == spec_scan(text@, label@),
{
    let tlen = text.len();
    proof {
        assert(text@.len() == tlen);
    }
    let found = match find_first(text, label) {
        Some(i) => i,
        None => {
            return Err(ScanError::LabelMissing);
        },
    };
    let k = match find_digit(text, found + label.len()) {
        Some(k) => k,
        None => {
            return Err(ScanError::NoDigits);
        },
    };
    let (v, _end) = parse_u32_sat(text, k);
    Ok(v)
}

/// The first position at or after `i` holding byte `b`.
pub open spec fn find_byte_from(t: Seq<u8>, i: int, b: u8) -> Option<int>
    decreases t.len() - i,
{
    if i < 0 || i >= t.len() {
        None
    } else if t[i] == b {
        Some(i)
    } else {
        find_byte_from(t, i + 1, b)
    }
}

/// The position of the first byte at or after `i` that is not a space.
pub open spec fn skip_spaces_from(t: Seq<u8>, i: int) -> int
    decreases t.len() - i,
{
    if i < 0 || i >= t.len() {
        i
    } else if t[i] == 32 {
        skip_spaces_from(t, i + 1)
    } else {
        i
    }
}

/// The month named by a case-sensitive three-letter abbreviation.
pub open spec fn spec_month_of(a: u8, b: u8, c: u8) -> Option<u32> {
    if a == 74 && b == 97 && c == 110 {
        Some(1u32)  // Jan
    } else if a == 70 && b == 101 && c == 98 {
        Some(2u32)  // Feb
    } else if a == 77 && b == 97 && c == 114 {
        Some(3u32)  // Mar
    } else if a == 65 && b == 112 && c == 114 {
        Some(4u32)  // Apr
    } else if a == 77 && b == 97 && c == 121 {
        Some(5u32)  // May
    } else if a == 74 && b == 117 && c == 110 {
        Some(6u32)  // Jun
    } else if a == 74 && b == 117 && c == 108 {
        Some(7u32)  // Jul
    } else if a == 65 && b == 117 && c == 103 {
        Some(8u32)  // Aug
    } else if a == 83 && b == 101 && c == 112 {
        Some(9u32)  // Sep
    } else if a == 79 && b == 99 && c == 116 {
        Some(10u32)  // Oct
    } else if a == 78 && b == 111 && c == 118 {
        Some(11u32)  // Nov
    } else if a == 68 && b == 101 && c == 99 {
        Some(12u32)  // Dec
    } else {
        None
    }
}

/// Match three bytes against the fixed month abbreviation table.
fn month_of(a: u8, b: u8, c: u8) -> (r: Option<u32>)
    ensures
        r == spec_month_of(a, b, c),
{
    if a == 74 && b == 97 && c == 110 {
        Some(1)
    } else if a == 70 && b == 101 && c == 98 {
        Some(2)
    } else if a == 77 && b == 97 && c == 114 {
        Some(3)
    } else if a == 65 && b == 112 && c == 114 {
        Some(4)
    } else if a == 77 && b == 97 && c == 121 {
        Some(5)
    } else if a == 74 && b == 117 && c == 110 {
        Some(6)
    } else if a == 74 && b == 117 && c == 108 {
        Some(7)
    } else if a == 65 && b == 117 && c == 103 {
        Some(8)
    } else if a == 83 && b == 101 && c == 112 {
        Some(9)
    } else if a == 79 && b == 99 && c == 116 {
        Some(10)
    } else if a == 78 && b == 111 && c == 118 {
        Some(11)
    } else if a == 68 && b == 101 && c == 99 {
        Some(12)
    } else {
        None
    }
}

/// What one tolerantly separated decimal token at or after `i` yields:
/// the clamped value, the token's start, and the position just past it.
pub open spec fn spec_next_number(t: Seq<u8>, i: int) -> Option<(u32, int, int)> {
    match first_digit_from(t, i) {
        None => None,
        Some(k) => Some(
            (sat32(digits_val(t.subrange(k, digit_run_end(t, k)))), k, digit_run_end(t, k)),
        ),
    }
}

/// Take the next decimal token at or after `i`, skipping any non-digit
/// separators before it.
fn next_number(text: &[u8], i: usize) -> (r: Option<(u32, usize, usize)>)
    requires
        i <= text@.len(),
    ensures
        match spec_next_number(text@, i as int) {
            Some((v, k, j)) => r matches Some(p) && p.0 == v && p.1 == k && p.2 == j && i <= k < j
                <= text@.len(),
            None => r is None,
        },
{
    let k = match find_digit(text, i) {
        Some(k) => k,
        None => {
            return None;
        },
    };
    proof {
        crate::digits::lemma_digit_run_end(text@, k as int);
        if digit_run_end(text@, k as int) == k as int {
            assert(!is_digit(text@[k as int]));
        }
    }
    let (v, j) = parse_u32_sat(text, k);
    Some((v, k, j))
}

/// What parsing the timestamp written at or after `start` yields.
///
/// The accepted shape is `"<weekday>, <Mon> <day> <year> - <HH:MM:SS>"`:
/// everything up to the first comma is ignored, spaces after the comma are
/// skipped, a case-sensitive three-letter month abbreviation follows, and
/// then day, year, hour, minute and second as decimal tokens separated
/// tolerantly by any non-digit bytes. A missing or short token fails with
/// the position where it was expected; three letters naming no month fail
/// as an unknown month; an out-of-range field fails at its token.
pub open spec fn spec_parse_timestamp(t: Seq<u8>, start: int) -> Result<Timestamp, ExtractError> {
    match find_byte_from(t, start, 44) {
        None => Err(ExtractError::DateParseError { at: t.len() as usize }),
        Some(c) => {
            let p = skip_spaces_from(t, c + 1);
            if p + 3 > t.len() {
                Err(ExtractError::DateParseError { at: p as usize })
            } else {
                match spec_month_of(t[p], t[p + 1], t[p + 2]) {
                    None => Err(ExtractError::UnknownMonth),
                    Some(month) => spec_parse_ts_numbers(t, p + 3, month),
                }
            }
        },
    }
}

/// Parse the five decimal tokens after the month and validate ranges.
pub open spec fn spec_parse_ts_numbers(t: Seq<u8>, i: int, month: u32) -> Result<
    Timestamp,
    ExtractError,
> {
    match spec_next_number(t, i) {
        None => Err(ExtractError::DateParseError { at: i as usize }),
        Some((day, kd, i)) => match spec_next_number(t, i) {
            None => Err(ExtractError::DateParseError { at: i as usize }),
            Some((year, ky, i)) => match spec_next_number(t, i) {
                None => Err(ExtractError::DateParseError { at: i as usize }),
                Some((hour, kh, i)) => match spec_next_number(t, i) {
                    None => Err(ExtractError::DateParseError { at: i as usize }),
                    Some((minute, km, i)) => match spec_next_number(t, i) {
                        None => Err(ExtractError::DateParseError { at: i as usize }),
                        Some((second, ks, i)) => if year > 9999 {
                            Err(ExtractError::DateParseError { at: ky as usize })
                        } else if day < 1 || day > spec_days_in_month(year as int, month as int) {
                            Err(ExtractError::DateParseError { at: kd as usize })
                        } else if hour > 23 {
                            Err(ExtractError::DateParseError { at: kh as usize })
                        } else if minute > 59 {
                            Err(ExtractError::DateParseError { at: km as usize })
                        } else if second > 59 {
                            Err(ExtractError::DateParseError { at: ks as usize })
                        } else {
                            Ok(
                                Timestamp {
                                    date: CalendarDate { year, month, day },
                                    hour,
                                    minute,
                                    second,
                                },
                            )
                        },
                    },
                },
            },
        },
    }
}

/// Parse the custom human-readable timestamp written at or after `start`
/// by explicit, bounds-checked tokenization. On success the timestamp is
/// well-formed.
pub fn parse_timestamp_at(text: &[u8], start: usize) -> (r: Result<Timestamp, ExtractError>)
    requires
        start <= text@.len(),
    ensures
        r == spec_parse_timestamp(text@, start as int),
        r matches Ok(ts) ==> ts.wf(),
{
    let tlen = text.len();
    let mut c: usize = start;
    while c < tlen && text[c] != 44
        invariant
            start <= c <= tlen,
            tlen == text@.len(),
            find_byte_from(text@, start as int, 44) == find_byte_from(text@, c as int, 44),
        decreases tlen - c,
    {
        c = c + 1;
    }
    if c == tlen {
        return Err(ExtractError::DateParseError { at: tlen });
    }
    let mut p: usize = c + 1;
    while p < tlen && text[p] == 32
        invariant
            c + 1 <= p <= tlen,
            tlen == text@.len(),
            skip_spaces_from(text@, c + 1 as int) == skip_spaces_from(text@, p as int),
        decreases tlen - p,
    {
        p = p + 1;
    }
    if tlen - p < 3 {
        return Err(ExtractError::DateParseError { at: p });
    }
    let month = match month_of(text[p], text[p + 1], text[p + 2]) {
        Some(m) => m,
        None => {
            return Err(ExtractError::UnknownMonth);
        },
    };
    let (day, kd, i2) = match next_number(text, p + 3) {
        Some(x) => x,
        None => {
            return Err(ExtractError::DateParseError { at: p + 3 });
        },
    };
    let (year, ky, i3) = match next_number(text, i2) {
        Some(x) => x,
        None => {
            return Err(ExtractError::DateParseError { at: i2 });
        },
    };
    let (hour, kh, i4) = match next_number(text, i3) {
        Some(x) => x,
        None => {
            return Err(ExtractError::DateParseError { at: i3 });
        },
    };
    let (minute, km, i5) = match next_number(text, i4) {
        Some(x) => x,
        None => {
            return Err(ExtractError::DateParseError { at: i4 });
        },
    };
    let (second, ks, _i6) = match next_number(text, i5) {
        Some(x) => x,
        None => {
            return Err(ExtractError::DateParseError { at: i5 });
        },
    };
    if year > 9999 {
        return Err(ExtractError::DateParseError { at: ky });
    }
    if day < 1 || day > days_in_month(year, month) {
        return Err(ExtractError::DateParseError { at: kd });
    }
    if hour > 23 {
        return Err(ExtractError::DateParseError { at: kh });
    }
    if minute > 59 {
        return Err(ExtractError::DateParseError { at: km });
    }
    if second > 59 {
        return Err(ExtractError::DateParseError { at: ks });
    }
    Ok(Timestamp { date: CalendarDate { year, month, day }, hour, minute, second })
}

} // verus!
