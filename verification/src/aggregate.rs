//! Ordering of archived reports into the time series handed to the
//! renderer: rows sorted ascending by their report's `as_of` timestamp,
//! which is authoritative for ordering (not the folder date key).

use vstd::prelude::*;
use vstd::multiset::Multiset;
use vstd::seq_lib::group_to_multiset_ensures;
use crate::archive::ArchiveEntry;
use crate::codec::spec_parse_report;
use crate::date::CalendarDate;
use crate::report::DailyReport;

verus! {

broadcast use group_to_multiset_ensures;

/// One aggregated day: the archive date key and its parsed report.
#[derive(Clone, Debug, PartialEq, Eq)]
pub struct ReportRow {
    pub date: CalendarDate,
    pub report: DailyReport,
}

/// The rows that aggregation draws from a run of archive entries: one row
/// per entry whose stored bytes parse, in entry order; entries that do not
/// parse are skipped rather than failing the whole aggregation.
pub open spec fn rows_of(s: Seq<ArchiveEntry>) -> Seq<ReportRow>
    decreases s.len(),
{
    if s.len() == 0 {
        Seq::empty()
    } else {
        let rest = rows_of(s.drop_last());
        match spec_parse_report(s.last().data@) {
            Some(rep) => rest.push(ReportRow { date: s.last().date, report: rep }),
            None => rest,
        }
    }
}

/// Rows in ascending order of their report timestamps.
pub open spec fn rows_sorted(s: Seq<ReportRow>) -> bool {
    forall|k: int, l: int|
        0 <= k < l < s.len() ==> #[trigger] s[k].report.info.as_of.spec_key()
            <= #[trigger] s[l].report.info.as_of.spec_key()
}

/// Sort rows ascending by their report's `as_of` timestamp. The result
/// holds exactly the given rows, reordered.
pub fn sort_rows(rows: Vec<ReportRow>) -> (res: Vec<ReportRow>)
    requires
        forall|k: int| 0 <= k < rows@.len() ==> (#[trigger] rows@[k]).report.info.as_of.wf(),
    ensures
        res@.to_multiset() == rows@.to_multiset(),
        rows_sorted(res@),
        forall|k: int| 0 <= k < res@.len() ==> (#[trigger] res@[k]).report.info.as_of.wf(),
{
    let mut rest = rows;
    let ghost rows0 = rest@;
    let mut res: Vec<ReportRow> = Vec::new();
    proof {
        assert(res@.to_multiset().add(rest@.to_multiset()) =~= rows0.to_multiset());
    }
    while rest.len() > 0
        invariant
            res@.to_multiset().add(rest@.to_multiset()) == rows0.to_multiset(),
            rows_sorted(res@),
            forall|k: int| 0 <= k < rest@.len() ==> (#[trigger] rest@[k]).report.info.as_of.wf(),
            forall|k: int| 0 <= k < res@.len() ==> (#[trigger] res@[k]).report.info.as_of.wf(),
        decreases rest@.len(),
    {
        let ghost rest_before = rest@;
        let row = match rest.pop() {
            Some(row) => row,
            None => {
                proof {
                    assert(false);
                }
                return res;
            },
        };
        proof {
            assert(rest_before =~= rest@.push(row));
            assert(rest_before.to_multiset() == rest@.to_multiset().insert(row));
        }
        let key = row.report.info.as_of.key();
        let mut p: usize = 0;
        while p < res.len() && res[p].report.info.as_of.key() <= key
            invariant
                p <= res@.len(),
                forall|m: int|
                    0 <= m < p ==> (#[trigger] res@[m]).report.info.as_of.spec_key()
                        <= row.report.info.as_of.spec_key(),
                rows_sorted(res@),
                forall|k: int| 0 <= k < res@.len() ==> (#[trigger] res@[k]).report.info.as_of.wf(),
                key == row.report.info.as_of.spec_key(),
                row.report.info.as_of.wf(),
            decreases res@.len() - p,
        {
            p = p + 1;
        }
        let ghost res_before = res@;
        res.insert(p, row);
        proof {
            assert(res@ == res_before.insert(p as int, row));
            assert(res@.to_multiset() == res_before.to_multiset().insert(row));
            assert forall|k: int, l: int| 0 <= k < l < res@.len() implies #[trigger] res@[k]
                .report.info.as_of.spec_key() <= #[trigger] res@[l].report.info.as_of.spec_key()
            by {
                if l < p {
                    assert(res@[k] == res_before[k] && res@[l] == res_before[l]);
                } else if k > p {
                    assert(res@[k] == res_before[k - 1] && res@[l] == res_before[l - 1]);
                } else if k < p && l == p {
                    assert(res@[k] == res_before[k]);
                } else if k == p && l > p {
                    assert(res@[l] == res_before[l - 1]);
                    if p < res_before.len() {
                        assert(res_before[p as int].report.info.as_of.spec_key()
                            > row.report.info.as_of.spec_key());
                    }
                } else if k < p && l > p {
                    assert(res@[k] == res_before[k] && res@[l] == res_before[l - 1]);
                }
            }
        }
    }
    proof {
        assert(rest@.to_multiset() =~= Multiset::<ReportRow>::empty());
        assert(res@.to_multiset() =~= rows0.to_multiset());
    }
    res
}

/// A permutation of rows with pairwise distinct dates again has pairwise
/// distinct dates.
pub proof fn lemma_perm_unique_dates(a: Seq<ReportRow>, b: Seq<ReportRow>)
    requires
        a.to_multiset() == b.to_multiset(),
        forall|i: int, j: int| 0 <= i < j < a.len() ==> a[i].date != a[j].date,
    ensures
        forall|i: int, j: int| 0 <= i < j < b.len() ==> b[i].date != b[j].date,
{
    assert forall|i: int, j: int| 0 <= i < j < a.len() implies a[i] != a[j] by {
        assert(a[i].date != a[j].date);
    }
    assert(a.no_duplicates());
    a.lemma_multiset_has_no_duplicates();
    b.lemma_multiset_has_no_duplicates_conv();
    assert forall|i: int, j: int| 0 <= i < j < b.len() implies b[i].date != b[j].date by {
        if b[i].date == b[j].date {
            assert(b[i] != b[j]);
            assert(b.contains(b[i]) && b.contains(b[j]));
            assert(a.to_multiset().contains(b[i]) && a.to_multiset().contains(b[j]));
            assert(a.contains(b[i]) && a.contains(b[j]));
            let p = choose|p: int| 0 <= p < a.len() && a[p] == b[i];
            let q = choose|q: int| 0 <= q < a.len() && a[q] == b[j];
            assert(p != q);
            assert(a[p].date != a[q].date);
        }
    }
}

} // verus!
