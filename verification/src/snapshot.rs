//! One parsed observation of the region's metrics, and the archive
//! folder and file names derived from its timestamp.

use vstd::prelude::*;
use vstd::string::StringExecFns;
use chrono::{Datelike, Timelike};
use crate::date::{CalendarDate, Timestamp};
use crate::extract::{
    find_first, first_occurrence_from, parse_timestamp_at, scan_labeled_number, spec_parse_timestamp,
    spec_scan, ExtractError, Field, ScanError,
};

verus! {

/// An auxiliary source field carried through unchanged.
#[derive(Clone, Debug, PartialEq, Eq)]
pub struct AuxField {
    pub name: String,
    pub value: Option<String>,
}

/// One observation of the region's metrics at a point in time. A count the
/// source omits stays `None` and propagates as unknown; substituting a
/// default happens only at report construction, never here.
#[derive(Clone, Debug, PartialEq, Eq)]
pub struct Snapshot {
    pub region: String,
    pub as_of: Timestamp,
    pub tested: Option<u32>,
    pub positive: Option<u32>,
    pub extras: Vec<AuxField>,
}

/// The decimal digit character of `d`.
pub open spec fn digit_char(d: int) -> char {
    if d == 0 {
        '0'
    } else if d == 1 {
        '1'
    } else if d == 2 {
        '2'
    } else if d == 3 {
        '3'
    } else if d == 4 {
        '4'
    } else if d == 5 {
        '5'
    } else if d == 6 {
        '6'
    } else if d == 7 {
        '7'
    } else if d == 8 {
        '8'
    } else {
        '9'
    }
}

/// `n` as two decimal digits, zero-padded.
pub open spec fn spec_pad2(n: int) -> Seq<char> {
    seq![digit_char(n / 10), digit_char(n % 10)]
}

/// `n` as four decimal digits, zero-padded.
pub open spec fn spec_pad4(n: int) -> Seq<char> {
    seq![
        digit_char(n / 1000),
        digit_char((n / 100) % 10),
        digit_char((n / 10) % 10),
        digit_char(n % 10),
    ]
}

/// The archive folder name of a date: `YYYY.MM.DD`, with a fixed
/// zero-padded four-digit year (the stable on-disk contract).
pub open spec fn spec_folder(d: CalendarDate) -> Seq<char> {
    spec_pad4(d.year as int) + seq!['.'] + spec_pad2(d.month as int) + seq!['.'] + spec_pad2(
        d.day as int,
    )
}

/// The raw-check artifact file name of a timestamp: `HH:MM:SS.toml`, so
/// several intra-day artifacts can coexist under one date folder.
pub open spec fn spec_file_name(t: Timestamp) -> Seq<char> {
    spec_pad2(t.hour as int) + seq![':'] + spec_pad2(t.minute as int) + seq![':'] + spec_pad2(
        t.second as int,
    ) + seq!['.', 't', 'o', 'm', 'l']
}

fn push_digit(s: &mut String, d: u32)
    requires
        d <= 9,
    ensures
        final(s)@ == old(s)@ + seq![digit_char(d as int)],
{
    match d {
        0 => {
            s.append("0");
            proof {
                reveal_strlit("0");
            }
        },
        1 => {
            s.append("1");
            proof {
                reveal_strlit("1");
            }
        },
        2 => {
            s.append("2");
            proof {
                reveal_strlit("2");
            }
        },
        3 => {
            s.append("3");
            proof {
                reveal_strlit("3");
            }
        },
        4 => {
            s.append("4");
            proof {
                reveal_strlit("4");
            }
        },
        5 => {
            s.append("5");
            proof {
                reveal_strlit("5");
            }
        },
        6 => {
            s.append("6");
            proof {
                reveal_strlit("6");
            }
        },
        7 => {
            s.append("7");
            proof {
                reveal_strlit("7");
            }
        },
        8 => {
            s.append("8");
            proof {
                reveal_strlit("8");
            }
        },
        _ => {
            s.append("9");
            proof {
                reveal_strlit("9");
            }
        },
    }
    proof {
        assert(s@ =~= old(s)@ + seq![digit_char(d as int)]);
    }
}

fn push_pad2(s: &mut String, n: u32)
    requires
        n <= 99,
    ensures
        final(s)@ == old(s)@ + spec_pad2(n as int),
{
    push_digit(s, n / 10);
    push_digit(s, n % 10);
    proof {
        assert(s@ =~= old(s)@ + spec_pad2(n as int));
    }
}

fn push_pad4(s: &mut String, n: u32)
    requires
        n <= 9999,
    ensures
        final(s)@ == old(s)@ + spec_pad4(n as int),
{
    push_digit(s, n / 1000);
    push_digit(s, (n / 100) % 10);
    push_digit(s, (n / 10) % 10);
    push_digit(s, n % 10);
    proof {
        assert(s@ =~= old(s)@ + spec_pad4(n as int));
    }
}

/// The archive folder name of a date key.
pub fn folder_name(d: &CalendarDate) -> (r: String)
    requires
        d.wf(),
    ensures
        r@ == spec_folder(*d),
{
    let mut s = String::new();
    push_pad4(&mut s, d.year);
    s.append(".");
    proof {
        reveal_strlit(".");
    }
    push_pad2(&mut s, d.month);
    s.append(".");
    push_pad2(&mut s, d.day);
    proof {
        assert(s@ =~= spec_folder(*d));
    }
    s
}

impl Snapshot {
    /// A usable snapshot: its timestamp is well-formed.
    pub open spec fn wf(self) -> bool {
        self.as_of.wf()
    }

    /// The archive folder this snapshot's report belongs in.
    pub fn folder(&self) -> (r: String)
        requires
            self.wf(),
        ensures
            r@ == spec_folder(self.as_of.date),
    {
        folder_name(&self.as_of.date)
    }

    /// The file name of this snapshot's raw-check artifact.
    pub fn file_name(&self) -> (r: String)
        requires
            self.wf(),
        ensures
            r@ == spec_file_name(self.as_of),
    {
        let mut s = String::new();
        push_pad2(&mut s, self.as_of.hour);
        s.append(":");
        proof {
            reveal_strlit(":");
        }
        push_pad2(&mut s, self.as_of.minute);
        s.append(":");
        push_pad2(&mut s, self.as_of.second);
        s.append(".toml");
        proof {
            reveal_strlit(".toml");
            assert(s@ =~= spec_file_name(self.as_of));
        }
        s
    }

    /// The snapshot's timestamp under the local-time rule.
    pub fn modified_local(&self) -> (r: Timestamp)
        ensures
            r == self.as_of,
    {
        self.as_of
    }

    /// The archive folder of the calendar day before this snapshot's: the
    /// folder a run looks in for yesterday's report.
    pub fn yesterday_folder(&self) -> (r: String)
        requires
            self.wf(),
            !(self.as_of.date.year == 0 && self.as_of.date.month == 1 && self.as_of.date.day == 1),
        ensures
            r@ == spec_folder(self.as_of.date.spec_prev()),
    {
        let y = self.as_of.date.prev_day();
        folder_name(&y)
    }

    /// Build a snapshot from plain values and an epoch timestamp.
    pub fn from_epoch(
        region: String,
        epoch_secs: i64,
        tested: Option<u32>,
        positive: Option<u32>,
    ) -> (s: Snapshot)
        requires
            0 <= epoch_secs <= 250000000000,
        ensures
            s.region == region,
            s.tested == tested,
            s.positive == positive,
            s.extras@.len() == 0,
            s.wf(),
    {
        let as_of = epoch_to_local(epoch_secs);
        Snapshot { region, as_of, tested, positive, extras: Vec::new() }
    }
}

/// Relies on chrono's `DateTime::from_timestamp` and its conversion to the
/// `Local` time zone: an in-range number of seconds yields `Some`, and the
/// civil fields of the resulting date-time lie in their documented ranges
/// (month 1 to 12, day valid for the month, hour below 24, minute and
/// second below 60). The bound on `secs` keeps the local year within four
/// digits for any time-zone offset.
#[verifier::external_body]
fn epoch_to_local(secs: i64) -> (ts: Timestamp)
    requires
        0 <= secs <= 250000000000,
    ensures
        ts.wf(),
{
    let utc = chrono::DateTime::from_timestamp(secs, 0).expect("in-range timestamp");
    let local = utc.with_timezone(&chrono::Local);
    Timestamp {
        date: CalendarDate {
            year: local.year() as u32,
            month: local.month(),
            day: local.day(),
        },
        hour: local.hour(),
        minute: local.minute(),
        second: local.second(),
    }
}

/// The values the text form must yield: the two counts and the timestamp,
/// each found by its fixed label, with the failure the first missing piece
/// causes.
pub open spec fn spec_extract_text(
    t: Seq<u8>,
    tested_l: Seq<u8>,
    positive_l: Seq<u8>,
    asof_l: Seq<u8>,
) -> Result<(u32, u32, Timestamp), ExtractError> {
    match spec_scan(t, tested_l) {
        Err(ScanError::LabelMissing) => Err(ExtractError::FieldNotFound { field: Field::Tested }),
        Err(ScanError::NoDigits) => Err(
            ExtractError::NoDigitsAfterLabel { field: Field::Tested },
        ),
        Ok(tested) => match spec_scan(t, positive_l) {
            Err(ScanError::LabelMissing) => Err(
                ExtractError::FieldNotFound { field: Field::Positive },
            ),
            Err(ScanError::NoDigits) => Err(
                ExtractError::NoDigitsAfterLabel { field: Field::Positive },
            ),
            Ok(positive) => match first_occurrence_from(t, asof_l, 0) {
                None => Err(ExtractError::FieldNotFound { field: Field::AsOf }),
                Some(i) => match spec_parse_timestamp(t, i + asof_l.len()) {
                    Err(e) => Err(e),
                    Ok(ts) => Ok((tested, positive, ts)),
                },
            },
        },
    }
}

/// Extract a snapshot from one region's loosely structured markup text:
/// each required numeric field is scanned after its fixed label, and the
/// timestamp is tokenized after its own label.
pub fn extract_from_text(
    text: &[u8],
    region: String,
    tested_label: &[u8],
    positive_label: &[u8],
    asof_label: &[u8],
) -> (r: Result<Snapshot, ExtractError>)
    ensures
        match spec_extract_text(text@, tested_label@, positive_label@, asof_label@) {
            Ok(v) => r matches Ok(s) && s.region == region && s.as_of == v.2 && s.tested == Some(
                v.0,
            ) && s.positive == Some(v.1) && s.extras@.len() == 0 && s.wf(),
            Err(e) => r == Err::<Snapshot, ExtractError>(e),
        },
{
    let tlen = text.len();
    let tested = match scan_labeled_number(text, tested_label) {
        Ok(v) => v,
        Err(ScanError::LabelMissing) => {
            return Err(ExtractError::FieldNotFound { field: Field::Tested });
        },
        Err(ScanError::NoDigits) => {
            return Err(ExtractError::NoDigitsAfterLabel { field: Field::Tested });
        },
    };
    let positive = match scan_labeled_number(text, positive_label) {
        Ok(v) => v,
        Err(ScanError::LabelMissing) => {
            return Err(ExtractError::FieldNotFound { field: Field::Positive });
        },
        Err(ScanError::NoDigits) => {
            return Err(ExtractError::NoDigitsAfterLabel { field: Field::Positive });
        },
    };
    let at = match find_first(text, asof_label) {
        Some(i) => i,
        None => {
            return Err(ExtractError::FieldNotFound { field: Field::AsOf });
        },
    };
    let as_of = match parse_timestamp_at(text, at + asof_label.len()) {
        Ok(ts) => ts,
        Err(e) => {
            return Err(e);
        },
    };
    Ok(Snapshot { region, as_of, tested: Some(tested), positive: Some(positive), extras: Vec::new() })
}

/// Select the one record whose region identifier equals the target: the
/// list form of extraction. Returns the index of the first such record.
pub fn find_region(records: &Vec<Snapshot>, target: &String) -> (r: Result<usize, ExtractError>)
    ensures
        match r {
            Ok(i) => i < records@.len() && records@[i as int].region@ == target@ && forall|j: int|
                0 <= j < i ==> records@[j].region@ != target@,
            Err(e) => e == ExtractError::RegionNotFound && forall|j: int|
                0 <= j < records@.len() ==> records@[j].region@ != target@,
        },
{
    let mut i: usize = 0;
    while i < records.len()
        invariant
            i <= records@.len(),
            forall|j: int| 0 <= j < i ==> records@[j].region@ != target@,
        decreases records@.len() - i,
    {
        if records[i].region == *target {
            return Ok(i);
        }
        i = i + 1;
    }
    Err(ExtractError::RegionNotFound)
}

} // verus!
