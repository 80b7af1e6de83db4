//! The daily report record and the day-over-day ratio derivation.

use vstd::prelude::*;
use crate::date::Timestamp;

verus! {

/// The day-over-day change of the positive count, kept as an exact
/// fraction: its value is `numerator / prev_positive`. The numerator is
/// today's positive count; `prev_positive` is the previous archived day's
/// count and is never zero.
#[derive(Clone, Copy, Debug, PartialEq, Eq, Structural)]
pub struct Ratio {
    pub numerator: u32,
    pub prev_positive: u32,
}

/// The core metrics of one day's snapshot.
#[derive(Clone, Copy, Debug, PartialEq, Eq, Structural)]
pub struct Info {
    pub as_of: Timestamp,
    pub tested: u32,
    pub positive: u32,
}

/// The record archived once per calendar date: the snapshot's core metrics
/// plus the ratio against the previous archived day, computed once at write
/// time. `ratio` is `None` when no previous day was on record, or when the
/// previous day's positive count was zero (a zero denominator yields no
/// ratio rather than a meaningless one).
#[derive(Clone, Debug, PartialEq, Eq)]
pub struct DailyReport {
    pub info: Info,
    pub ratio: Option<Ratio>,
}

impl DailyReport {
    /// Internal consistency: the timestamp is usable, and a present ratio
    /// has a non-zero denominator and today's count as its numerator.
    pub open spec fn wf(self) -> bool {
        &&& self.info.as_of.wf()
        &&& match self.ratio {
            Some(rt) => rt.prev_positive > 0 && rt.numerator == self.info.positive,
            None => true,
        }
    }

    /// Build the report for one day from its snapshot values and the
    /// positive count of the previous archived day, if any.
    pub fn new(as_of: Timestamp, tested: u32, positive: u32, prev_positive: Option<u32>) -> (r:
        DailyReport)
        requires
            as_of.wf(),
        ensures
            r.info == (Info { as_of, tested, positive }),
            r.ratio == spec_ratio_of_prev(positive, prev_positive),
            r.wf(),
    {
        let ratio = match prev_positive {
            Some(prev) => if prev > 0 {
                Some(Ratio { numerator: positive, prev_positive: prev })
            } else {
                None
            },
            None => None,
        };
        DailyReport { info: Info { as_of, tested, positive }, ratio }
    }
}

/// The ratio derived from today's positive count and the previous day's,
/// when the latter exists and is non-zero.
pub open spec fn spec_ratio_of_prev(today_positive: u32, prev_positive: Option<u32>) -> Option<
    Ratio,
> {
    match prev_positive {
        Some(prev) => if prev > 0 {
            Some(Ratio { numerator: today_positive, prev_positive: prev })
        } else {
            None
        },
        None => None,
    }
}

/// Derive the day-over-day ratio for today's positive count against the
/// previous archived day's report.
///
/// No previous report, or a previous positive count of zero, yields no
/// ratio; a positive previous count yields exactly the fraction
/// `today_positive / prev_positive`.
pub fn ratio(today_positive: u32, yesterday: &Option<DailyReport>) -> (r: Option<Ratio>)
    ensures
        yesterday is None ==> r is None,
        yesterday matches Some(y) ==> (y.info.positive == 0 ==> r is None),
        yesterday matches Some(y) ==> (y.info.positive > 0 ==> r == Some(
            Ratio { numerator: today_positive, prev_positive: y.info.positive },
        )),
{
    match yesterday {
        Some(y) => if y.info.positive > 0 {
            Some(Ratio { numerator: today_positive, prev_positive: y.info.positive })
        } else {
            None
        },
        None => None,
    }
}

} // verus!
