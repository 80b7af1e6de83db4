//! The date-keyed archive of daily reports.
//!
//! The archive holds at most one entry per calendar date; each entry keeps
//! the serialized bytes of its report, exactly as they stand in that
//! date's report file. Writing a report for a date that already has one
//! overwrites it in place; reading a date with no entry is the ordinary
//! "no prior day" case and yields `None` rather than an error.

use vstd::prelude::*;
use vstd::seq_lib::group_to_multiset_ensures;
use crate::aggregate::{lemma_perm_unique_dates, rows_of, rows_sorted, sort_rows, ReportRow};
use crate::codec::{
    lemma_render_parse_report, parse_report, render_report, spec_parse_report, spec_render_report,
};
use crate::date::CalendarDate;
use crate::report::DailyReport;

verus! {

/// One archived day: the date key and the serialized report bytes.
pub struct ArchiveEntry {
    pub date: CalendarDate,
    pub data: Vec<u8>,
}

/// The date-keyed store of serialized daily reports.
pub struct Archive {
    pub(crate) entries: Vec<ArchiveEntry>,
}

/// The map from archived dates to the serialized bytes stored for them;
/// a later entry for the same date shadows an earlier one.
pub open spec fn entries_map(s: Seq<ArchiveEntry>) -> Map<CalendarDate, Seq<u8>>
    decreases s.len(),
{
    if s.len() == 0 {
        Map::empty()
    } else {
        entries_map(s.drop_last()).insert(s.last().date, s.last().data@)
    }
}

/// A date is archived exactly when some entry carries it.
pub proof fn lemma_entries_map_dom(s: Seq<ArchiveEntry>, d: CalendarDate)
    ensures
        entries_map(s).contains_key(d) <==> exists|i: int| 0 <= i < s.len() && s[i].date == d,
    decreases s.len(),
{
    if s.len() > 0 {
        lemma_entries_map_dom(s.drop_last(), d);
        if entries_map(s).contains_key(d) {
            if s.last().date == d {
                assert(s[s.len() - 1].date == d);
            } else {
                let i = choose|i: int| 0 <= i < s.drop_last().len() && s.drop_last()[i].date == d;
                assert(s[i].date == d);
            }
        }
        if exists|i: int| 0 <= i < s.len() && s[i].date == d {
            let i = choose|i: int| 0 <= i < s.len() && s[i].date == d;
            if i < s.len() - 1 {
                assert(s.drop_last()[i].date == d);
            }
        }
    }
}

/// With no two entries on the same date, the entry carrying a date holds
/// exactly the bytes the map gives for it.
pub proof fn lemma_entries_map_at(s: Seq<ArchiveEntry>, i: int)
    requires
        0 <= i < s.len(),
        forall|j: int, k: int| 0 <= j < k < s.len() ==> s[j].date != s[k].date,
    ensures
        entries_map(s).contains_key(s[i].date),
        entries_map(s)[s[i].date] == s[i].data@,
    decreases s.len(),
{
    if i == s.len() - 1 {
        assert(s.last() == s[i]);
    } else {
        lemma_entries_map_at(s.drop_last(), i);
        assert(s.drop_last()[i] == s[i]);
        assert(s.last().date != s[i].date);
    }
}

/// Replacing the one entry of a date changes the map at that date alone.
proof fn lemma_entries_map_update(s: Seq<ArchiveEntry>, i: int, e: ArchiveEntry)
    requires
        0 <= i < s.len(),
        s[i].date == e.date,
        forall|j: int, k: int| 0 <= j < k < s.len() ==> s[j].date != s[k].date,
    ensures
        entries_map(s.update(i, e)) == entries_map(s).insert(e.date, e.data@),
    decreases s.len(),
{
    let su = s.update(i, e);
    if i == s.len() - 1 {
        assert(su.drop_last() =~= s.drop_last());
        assert(su.last() == e);
        assert(entries_map(su) == entries_map(s.drop_last()).insert(e.date, e.data@));
        assert(entries_map(s.drop_last()).insert(s.last().date, s.last().data@).insert(
            e.date,
            e.data@,
        ) =~= entries_map(s.drop_last()).insert(e.date, e.data@));
    } else {
        lemma_entries_map_update(s.drop_last(), i, e);
        assert(su.drop_last() =~= s.drop_last().update(i, e));
        assert(su.last() == s.last());
        assert(entries_map(su) == entries_map(s.drop_last()).insert(e.date, e.data@).insert(
            s.last().date,
            s.last().data@,
        ));
        assert(s.last().date != e.date);
        assert(entries_map(s.drop_last()).insert(e.date, e.data@).insert(
            s.last().date,
            s.last().data@,
        ) =~= entries_map(s.drop_last()).insert(s.last().date, s.last().data@).insert(
            e.date,
            e.data@,
        ));
    }
}

impl Archive {
    /// No two entries share a date.
    pub closed spec fn wf(self) -> bool {
        forall|j: int, k: int|
            0 <= j < k < self.entries@.len() ==> self.entries@[j].date != self.entries@[k].date
    }

    /// The archive viewed as the map from dates to stored bytes.
    pub closed spec fn view(self) -> Map<CalendarDate, Seq<u8>> {
        entries_map(self.entries@)
    }

    /// An empty archive.
    pub fn new() -> (a: Archive)
        ensures
            a@ == Map::<CalendarDate, Seq<u8>>::empty(),
            a.wf(),
    {
        Archive { entries: Vec::new() }
    }

    /// The index of the entry holding `d`, if one does.
    fn find(&self, d: &CalendarDate) -> (r: Option<usize>)
        ensures
            match r {
                Some(i) => i < self.entries@.len() && self.entries@[i as int].date == *d,
                None => forall|i: int| 0 <= i < self.entries@.len() ==> self.entries@[i].date != *d,
            },
    {
        let mut i: usize = 0;
        while i < self.entries.len()
            invariant
                i <= self.entries@.len(),
                forall|j: int| 0 <= j < i ==> self.entries@[j].date != *d,
            decreases self.entries@.len() - i,
        {
            if self.entries[i].date == *d {
                return Some(i);
            }
            i = i + 1;
        }
        None
    }

    /// Look up the report archived under `d`: `None` when no entry exists
    /// for that date (the expected case for the first run and for gap
    /// days) or when the stored bytes do not parse.
    pub fn read(&self, d: &CalendarDate) -> (r: Option<DailyReport>)
        requires
            self.wf(),
        ensures
            r == if self@.contains_key(*d) {
                spec_parse_report(self@[*d])
            } else {
                None::<DailyReport>
            },
            r matches Some(rep) ==> rep.wf(),
    {
        proof {
            lemma_entries_map_dom(self.entries@, *d);
        }
        match self.find(d) {
            Some(i) => {
                proof {
                    lemma_entries_map_at(self.entries@, i as int);
                }
                parse_report(self.entries[i].data.as_slice())
            },
            None => None,
        }
    }

    /// Archive `rep` under `d`, serializing it to the stored text format.
    /// An entry already standing under `d` is overwritten in place; the
    /// last writer wins.
    pub fn write(&mut self, d: CalendarDate, rep: &DailyReport)
        requires
            old(self).wf(),
        ensures
            final(self)@ == old(self)@.insert(d, spec_render_report(*rep)),
            final(self).wf(),
    {
        let data = render_report(rep);
        self.write_raw(d, data);
    }

    /// Store raw bytes under `d`, overwriting any entry for that date.
    /// This is how previously persisted entries, well-formed or not, are
    /// loaded back into an archive.
    pub fn write_raw(&mut self, d: CalendarDate, data: Vec<u8>)
        requires
            old(self).wf(),
        ensures
            final(self)@ == old(self)@.insert(d, data@),
            final(self).wf(),
    {
        let ghost s0 = self.entries@;
        match self.find(&d) {
            Some(i) => {
                let e = &mut self.entries[i];
                e.data = data;
                proof {
                    assert(self.entries@ == s0.update(
                        i as int,
                        ArchiveEntry { date: d, data: self.entries@[i as int].data },
                    ));
                    lemma_entries_map_update(
                        s0,
                        i as int,
                        ArchiveEntry { date: d, data: self.entries@[i as int].data },
                    );
                }
            },
            None => {
                self.entries.push(ArchiveEntry { date: d, data });
                proof {
                    assert(self.entries@.drop_last() =~= s0);
                    lemma_entries_map_dom(s0, d);
                }
            },
        }
    }


    /// The rows of every entry whose bytes parse, in entry order; each
    /// parsed report is well-formed.
    fn collect_rows(&self) -> (rows: Vec<ReportRow>)
        ensures
            rows@ == rows_of(self.entries@),
            forall|k: int| 0 <= k < rows@.len() ==> (#[trigger] rows@[k]).report.info.as_of.wf(),
    {
        let mut rows: Vec<ReportRow> = Vec::new();
        let mut i: usize = 0;
        proof {
            assert(rows@ =~= rows_of(self.entries@.subrange(0, 0)));
        }
        while i < self.entries.len()
            invariant
                i <= self.entries@.len(),
                rows@ == rows_of(self.entries@.subrange(0, i as int)),
                forall|k: int|
                    0 <= k < rows@.len() ==> (#[trigger] rows@[k]).report.info.as_of.wf(),
            decreases self.entries@.len() - i,
        {
            let ghost pre = self.entries@.subrange(0, i as int);
            match parse_report(self.entries[i].data.as_slice()) {
                Some(rep) => {
                    rows.push(ReportRow { date: self.entries[i].date, report: rep });
                },
                None => {},
            }
            proof {
                let nxt = self.entries@.subrange(0, i + 1);
                assert(nxt.drop_last() =~= pre);
                assert(nxt.last() == self.entries@[i as int]);
            }
            i = i + 1;
        }
        proof {
            assert(self.entries@.subrange(0, self.entries@.len() as int) =~= self.entries@);
        }
        rows
    }

    /// Reconstruct the whole archived time series for rendering: one row
    /// per archived date whose stored bytes parse, ascending by the
    /// report's `as_of` timestamp. An entry that does not parse is
    /// skipped, never failing the rest of the series.
    pub fn all_reports(&self) -> (res: Vec<ReportRow>)
        requires
            self.wf(),
        ensures
            rows_sorted(res@),
            forall|k: int|
                0 <= k < res@.len() ==> self@.contains_key((#[trigger] res@[k]).date)
                    && spec_parse_report(self@[res@[k].date]) == Some(res@[k].report),
            forall|d: CalendarDate|
                #[trigger] self@.contains_key(d) && spec_parse_report(self@[d]) is Some
                    ==> exists|k: int| 0 <= k < res@.len() && (#[trigger] res@[k]).date == d,
            forall|k: int, l: int| 0 <= k < l < res@.len() ==> res@[k].date != res@[l].date,
    {
        broadcast use group_to_multiset_ensures;

        let rows = self.collect_rows();
        let ghost rows0 = rows@;
        proof {
            lemma_rows_of_elems(self.entries@);
        }
        let res = sort_rows(rows);
        proof {
            lemma_perm_unique_dates(rows0, res@);
            assert forall|k: int|
                0 <= k < res@.len() implies self@.contains_key((#[trigger] res@[k]).date)
                && spec_parse_report(self@[res@[k].date]) == Some(res@[k].report) by {
                assert(res@.contains(res@[k]));
                assert(res@.to_multiset().contains(res@[k]));
                assert(rows0.contains(res@[k]));
                let j = choose|j: int| 0 <= j < rows0.len() && rows0[j] == res@[k];
                assert(rows0[j].date == res@[k].date);
            }
            assert forall|d: CalendarDate|
                #[trigger] self@.contains_key(d) && spec_parse_report(self@[d]) is Some
                implies exists|k: int| 0 <= k < res@.len() && (#[trigger] res@[k]).date == d by {
                let j = choose|j: int| 0 <= j < rows0.len() && rows0[j].date == d;
                assert(rows0.contains(rows0[j]));
                assert(res@.to_multiset().contains(rows0[j]));
                assert(res@.contains(rows0[j]));
                let k = choose|k: int| 0 <= k < res@.len() && res@[k] == rows0[j];
                assert(res@[k].date == d);
            }
        }
        res
    }
}

/// With pairwise distinct entry dates, the aggregation rows stand in
/// exact correspondence with the archive map: each row's date is archived
/// with bytes parsing to its report, every archived date whose bytes
/// parse has a row, and no two rows share a date.
proof fn lemma_rows_of_elems(s: Seq<ArchiveEntry>)
    requires
        forall|j: int, k: int| 0 <= j < k < s.len() ==> s[j].date != s[k].date,
    ensures
        forall|k: int|
            0 <= k < rows_of(s).len() ==> entries_map(s).contains_key(
                (#[trigger] rows_of(s)[k]).date,
            ) && spec_parse_report(entries_map(s)[rows_of(s)[k].date]) == Some(
                rows_of(s)[k].report,
            ),
        forall|d: CalendarDate|
            #[trigger] entries_map(s).contains_key(d) && spec_parse_report(entries_map(s)[d])
                is Some ==> exists|k: int|
                0 <= k < rows_of(s).len() && (#[trigger] rows_of(s)[k]).date == d,
        forall|k: int, l: int|
            0 <= k < l < rows_of(s).len() ==> rows_of(s)[k].date != rows_of(s)[l].date,
    decreases s.len(),
{
    if s.len() == 0 {
        assert(entries_map(s) == Map::<CalendarDate, Seq<u8>>::empty());
    } else {
        let s0 = s.drop_last();
        let e = s.last();
        assert forall|j: int, k: int| 0 <= j < k < s0.len() implies s0[j].date != s0[k].date by {
            assert(s0[j] == s[j] && s0[k] == s[k]);
        }
        lemma_rows_of_elems(s0);
        assert forall|i: int| 0 <= i < s0.len() implies (#[trigger] s0[i]).date != e.date by {
            assert(s0[i] == s[i] && e == s[s.len() - 1]);
        }
        lemma_entries_map_dom(s0, e.date);
        assert(!entries_map(s0).contains_key(e.date));
        let m0 = entries_map(s0);
        let m = entries_map(s);
        let rows0 = rows_of(s0);
        let rows = rows_of(s);
        assert(m == m0.insert(e.date, e.data@));

        assert forall|k: int|
            0 <= k < rows.len() implies m.contains_key((#[trigger] rows[k]).date)
            && spec_parse_report(m[rows[k].date]) == Some(rows[k].report) by {
            if k < rows0.len() {
                assert(rows[k] == rows0[k]);
                assert(m0.contains_key(rows0[k].date));
                assert(rows0[k].date != e.date);
            } else {
                assert(rows[k].date == e.date && m[e.date] == e.data@);
            }
        }
        assert forall|d: CalendarDate|
            #[trigger] m.contains_key(d) && spec_parse_report(m[d]) is Some implies exists|k: int|
            0 <= k < rows.len() && (#[trigger] rows[k]).date == d by {
            if d == e.date {
                assert(m[d] == e.data@);
                assert(spec_parse_report(e.data@) is Some);
                assert(rows[rows.len() - 1].date == e.date);
            } else {
                assert(m0.contains_key(d) && m0[d] == m[d]);
                let k = choose|k: int| 0 <= k < rows0.len() && rows0[k].date == d;
                assert(rows[k] == rows0[k]);
            }
        }
        assert forall|k: int, l: int|
            0 <= k < l < rows.len() implies rows[k].date != rows[l].date by {
            if l < rows0.len() {
                assert(rows[k] == rows0[k] && rows[l] == rows0[l]);
            } else if l == rows0.len() && l < rows.len() {
                assert(rows[k] == rows0[k]);
                assert(m0.contains_key(rows0[k].date));
                assert(rows[l].date == e.date);
            }
        }
    }
}

/// Writing a report and reading its date back yields that report: the
/// serialized bytes stored by the write parse to the value written.
pub proof fn lemma_read_after_write(
    m: Map<CalendarDate, Seq<u8>>,
    d: CalendarDate,
    rep: DailyReport,
)
    requires
        rep.wf(),
    ensures
        m.insert(d, spec_render_report(rep)).contains_key(d),
        spec_parse_report(m.insert(d, spec_render_report(rep))[d]) == Some(rep),
{
    lemma_render_parse_report(rep);
}

/// Writing twice under one date, with different reports, leaves exactly
/// the state of a single write of the second report: the re-ingest
/// overwrites, duplicating nothing and failing nothing.
pub proof fn lemma_write_twice_overwrites(
    m: Map<CalendarDate, Seq<u8>>,
    d: CalendarDate,
    first: DailyReport,
    second: DailyReport,
)
    ensures
        m.insert(d, spec_render_report(first)).insert(d, spec_render_report(second)) == m.insert(
            d,
            spec_render_report(second),
        ),
{
    assert(m.insert(d, spec_render_report(first)).insert(d, spec_render_report(second)) =~= m.insert(
        d,
        spec_render_report(second),
    ));
}

} // verus!
