//! The archive's on-disk report format: a small human-readable key-value
//! text, rendered and parsed here with a proved round trip.
//!
//! A report is laid out as ASCII lines
//!
//! ```text
//! as_of = 2020-3-15 13:5:0
//! tested = 2900
//! positive = 60
//! ratio = 60 / 21
//! ```
//!
//! where the `ratio` line is absent when the report carries no ratio.

use vstd::prelude::*;
use crate::date::{CalendarDate, Timestamp};
use crate::digits::{
    dec_digits, is_digit, lemma_dec_digits, lemma_digit_run_end_is, parse_u32_at, push_dec_u32,
    spec_parse_u32,
};
use crate::report::{DailyReport, Info, Ratio};

verus! {

/// The bytes of `"as_of = "`.
pub open spec fn lit_as_of() -> Seq<u8> {
    seq![97u8, 115u8, 95u8, 111u8, 102u8, 32u8, 61u8, 32u8]
}

/// The bytes of `"-"`.
pub open spec fn lit_dash() -> Seq<u8> {
    seq![45u8]
}

/// The bytes of `" "`.
pub open spec fn lit_sp() -> Seq<u8> {
    seq![32u8]
}

/// The bytes of `":"`.
pub open spec fn lit_colon() -> Seq<u8> {
    seq![58u8]
}

/// The bytes of `"\ntested = "`.
pub open spec fn lit_tested() -> Seq<u8> {
    seq![10u8, 116u8, 101u8, 115u8, 116u8, 101u8, 100u8, 32u8, 61u8, 32u8]
}

/// The bytes of `"\npositive = "`.
pub open spec fn lit_positive() -> Seq<u8> {
    seq![10u8, 112u8, 111u8, 115u8, 105u8, 116u8, 105u8, 118u8, 101u8, 32u8, 61u8, 32u8]
}

/// The bytes of `"\n"`.
pub open spec fn lit_nl() -> Seq<u8> {
    seq![10u8]
}

/// The bytes of `"ratio = "`.
pub open spec fn lit_ratio() -> Seq<u8> {
    seq![114u8, 97u8, 116u8, 105u8, 111u8, 32u8, 61u8, 32u8]
}

/// The bytes of `" / "`.
pub open spec fn lit_slash() -> Seq<u8> {
    seq![32u8, 47u8, 32u8]
}

fn push_lit_as_of(out: &mut Vec<u8>)
    ensures
        final(out)@ == old(out)@ + lit_as_of(),
{
    out.push(97);
    out.push(115);
    out.push(95);
    out.push(111);
    out.push(102);
    out.push(32);
    out.push(61);
    out.push(32);
    proof {
        assert(out@ =~= old(out)@ + lit_as_of());
    }
}

fn push_lit_dash(out: &mut Vec<u8>)
    ensures
        final(out)@ == old(out)@ + lit_dash(),
{
    out.push(45);
    proof {
        assert(out@ =~= old(out)@ + lit_dash());
    }
}

fn push_lit_sp(out: &mut Vec<u8>)
    ensures
        final(out)@ == old(out)@ + lit_sp(),
{
    out.push(32);
    proof {
        assert(out@ =~= old(out)@ + lit_sp());
    }
}

fn push_lit_colon(out: &mut Vec<u8>)
    ensures
        final(out)@ == old(out)@ + lit_colon(),
{
    out.push(58);
    proof {
        assert(out@ =~= old(out)@ + lit_colon());
    }
}

fn push_lit_tested(out: &mut Vec<u8>)
    ensures
        final(out)@ == old(out)@ + lit_tested(),
{
    out.push(10);
    out.push(116);
    out.push(101);
    out.push(115);
    out.push(116);
    out.push(101);
    out.push(100);
    out.push(32);
    out.push(61);
    out.push(32);
    proof {
        assert(out@ =~= old(out)@ + lit_tested());
    }
}

fn push_lit_positive(out: &mut Vec<u8>)
    ensures
        final(out)@ == old(out)@ + lit_positive(),
{
    out.push(10);
    out.push(112);
    out.push(111);
    out.push(115);
    out.push(105);
    out.push(116);
    out.push(105);
    out.push(118);
    out.push(101);
    out.push(32);
    out.push(61);
    out.push(32);
    proof {
        assert(out@ =~= old(out)@ + lit_positive());
    }
}

fn push_lit_nl(out: &mut Vec<u8>)
    ensures
        final(out)@ == old(out)@ + lit_nl(),
{
    out.push(10);
    proof {
        assert(out@ =~= old(out)@ + lit_nl());
    }
}

fn push_lit_ratio(out: &mut Vec<u8>)
    ensures
        final(out)@ == old(out)@ + lit_ratio(),
{
    out.push(114);
    out.push(97);
    out.push(116);
    out.push(105);
    out.push(111);
    out.push(32);
    out.push(61);
    out.push(32);
    proof {
        assert(out@ =~= old(out)@ + lit_ratio());
    }
}

fn push_lit_slash(out: &mut Vec<u8>)
    ensures
        final(out)@ == old(out)@ + lit_slash(),
{
    out.push(32);
    out.push(47);
    out.push(32);
    proof {
        assert(out@ =~= old(out)@ + lit_slash());
    }
}

/// The rendering of the optional ratio line.
pub open spec fn spec_render_ratio(ratio: Option<Ratio>) -> Seq<u8> {
    match ratio {
        None => Seq::<u8>::empty(),
        Some(rt) => lit_ratio() + (dec_digits(rt.numerator as nat) + (lit_slash() + (dec_digits(
            rt.prev_positive as nat,
        ) + lit_nl()))),
    }
}

/// The serialized bytes of a report. The concatenation is nested to the
/// right, so that each piece is the head of the remaining suffix.
pub open spec fn spec_render_report(r: DailyReport) -> Seq<u8> {
    lit_as_of() + (dec_digits(r.info.as_of.date.year as nat) + (lit_dash() + (dec_digits(
        r.info.as_of.date.month as nat,
    ) + (lit_dash() + (dec_digits(r.info.as_of.date.day as nat) + (lit_sp() + (dec_digits(
        r.info.as_of.hour as nat,
    ) + (lit_colon() + (dec_digits(r.info.as_of.minute as nat) + (lit_colon() + (dec_digits(
        r.info.as_of.second as nat,
    ) + (lit_tested() + (dec_digits(r.info.tested as nat) + (lit_positive() + (dec_digits(
        r.info.positive as nat,
    ) + (lit_nl() + spec_render_ratio(r.ratio)))))))))))))))))
}

/// The head of the rendering, concatenated to the left in the order the
/// serializer appends its pieces.
pub open spec fn spec_render_head_flat(r: DailyReport) -> Seq<u8> {
    lit_as_of() + dec_digits(r.info.as_of.date.year as nat) + lit_dash() + dec_digits(
        r.info.as_of.date.month as nat,
    ) + lit_dash() + dec_digits(r.info.as_of.date.day as nat) + lit_sp() + dec_digits(
        r.info.as_of.hour as nat,
    ) + lit_colon() + dec_digits(r.info.as_of.minute as nat) + lit_colon() + dec_digits(
        r.info.as_of.second as nat,
    ) + lit_tested() + dec_digits(r.info.tested as nat) + lit_positive() + dec_digits(
        r.info.positive as nat,
    ) + lit_nl()
}

/// The same bytes as `spec_render_report`, concatenated to the left.
pub open spec fn spec_render_flat(r: DailyReport) -> Seq<u8> {
    match r.ratio {
        None => spec_render_head_flat(r),
        Some(rt) => spec_render_head_flat(r) + lit_ratio() + dec_digits(rt.numerator as nat)
            + lit_slash() + dec_digits(rt.prev_positive as nat) + lit_nl(),
    }
}

proof fn seq_assoc(a: Seq<u8>, b: Seq<u8>, c: Seq<u8>)
    ensures
        (a + b) + c == a + (b + c),
{
    assert((a + b) + c =~= a + (b + c));
}

/// The two concatenation orders of the rendering agree.
proof fn lemma_render_flat(r: DailyReport)
    ensures
        spec_render_flat(r) == spec_render_report(r),
{
    let x1 = lit_as_of();
    let x2 = dec_digits(r.info.as_of.date.year as nat);
    let x3 = lit_dash();
    let x4 = dec_digits(r.info.as_of.date.month as nat);
    let x5 = lit_dash();
    let x6 = dec_digits(r.info.as_of.date.day as nat);
    let x7 = lit_sp();
    let x8 = dec_digits(r.info.as_of.hour as nat);
    let x9 = lit_colon();
    let x10 = dec_digits(r.info.as_of.minute as nat);
    let x11 = lit_colon();
    let x12 = dec_digits(r.info.as_of.second as nat);
    let x13 = lit_tested();
    let x14 = dec_digits(r.info.tested as nat);
    let x15 = lit_positive();
    let x16 = dec_digits(r.info.positive as nat);
    let x17 = lit_nl();
    let tail = spec_render_ratio(r.ratio);

    let l1 = x1;
    let l2 = l1 + x2;
    let l3 = l2 + x3;
    let l4 = l3 + x4;
    let l5 = l4 + x5;
    let l6 = l5 + x6;
    let l7 = l6 + x7;
    let l8 = l7 + x8;
    let l9 = l8 + x9;
    let l10 = l9 + x10;
    let l11 = l10 + x11;
    let l12 = l11 + x12;
    let l13 = l12 + x13;
    let l14 = l13 + x14;
    let l15 = l14 + x15;
    let l16 = l15 + x16;
    let l17 = l16 + x17;

    let r17 = x17 + tail;
    let r16 = x16 + r17;
    let r15 = x15 + r16;
    let r14 = x14 + r15;
    let r13 = x13 + r14;
    let r12 = x12 + r13;
    let r11 = x11 + r12;
    let r10 = x10 + r11;
    let r9 = x9 + r10;
    let r8 = x8 + r9;
    let r7 = x7 + r8;
    let r6 = x6 + r7;
    let r5 = x5 + r6;
    let r4 = x4 + r5;
    let r3 = x3 + r4;
    let r2 = x2 + r3;

    seq_assoc(l16, x17, tail);
    seq_assoc(l15, x16, r17);
    seq_assoc(l14, x15, r16);
    seq_assoc(l13, x14, r15);
    seq_assoc(l12, x13, r14);
    seq_assoc(l11, x12, r13);
    seq_assoc(l10, x11, r12);
    seq_assoc(l9, x10, r11);
    seq_assoc(l8, x9, r10);
    seq_assoc(l7, x8, r9);
    seq_assoc(l6, x7, r8);
    seq_assoc(l5, x6, r7);
    seq_assoc(l4, x5, r6);
    seq_assoc(l3, x4, r5);
    seq_assoc(l2, x3, r4);
    seq_assoc(l1, x2, r3);
    assert(l17 + tail == x1 + r2);
    assert(x1 + r2 == spec_render_report(r));

    match r.ratio {
        None => {
            assert(l17 + tail =~= l17);
            assert(spec_render_flat(r) == l17);
        },
        Some(rt) => {
            let z1 = lit_ratio();
            let z2 = dec_digits(rt.numerator as nat);
            let z3 = lit_slash();
            let z4 = dec_digits(rt.prev_positive as nat);
            let z5 = lit_nl();
            let t4 = z4 + z5;
            let t3 = z3 + t4;
            let t2 = z2 + t3;
            assert(tail == z1 + t2);
            seq_assoc(l17, z1, t2);
            seq_assoc(l17 + z1, z2, t3);
            seq_assoc(l17 + z1 + z2, z3, t4);
            seq_assoc(l17 + z1 + z2 + z3, z4, z5);
            assert(spec_render_flat(r) == l17 + z1 + z2 + z3 + z4 + z5);
            assert(l17 + z1 + z2 + z3 + z4 + z5 == l17 + tail);
        },
    }
}

/// Serialize a report into the archive's text format.
pub fn render_report(r: &DailyReport) -> (out: Vec<u8>)
    ensures
        out@ == spec_render_report(*r),
{
    let mut out: Vec<u8> = Vec::new();
    proof {
        assert(out@ =~= Seq::<u8>::empty());
    }
    push_lit_as_of(&mut out);
    proof {
        assert(out@ =~= lit_as_of());
    }
    push_dec_u32(&mut out, r.info.as_of.date.year);
    push_lit_dash(&mut out);
    push_dec_u32(&mut out, r.info.as_of.date.month);
    push_lit_dash(&mut out);
    push_dec_u32(&mut out, r.info.as_of.date.day);
    push_lit_sp(&mut out);
    push_dec_u32(&mut out, r.info.as_of.hour);
    push_lit_colon(&mut out);
    push_dec_u32(&mut out, r.info.as_of.minute);
    push_lit_colon(&mut out);
    push_dec_u32(&mut out, r.info.as_of.second);
    push_lit_tested(&mut out);
    push_dec_u32(&mut out, r.info.tested);
    push_lit_positive(&mut out);
    push_dec_u32(&mut out, r.info.positive);
    push_lit_nl(&mut out);
    proof {
        assert(out@ == spec_render_head_flat(*r));
    }
    match &r.ratio {
        None => {
            proof {
                lemma_render_flat(*r);
            }
        },
        Some(rt) => {
            push_lit_ratio(&mut out);
            push_dec_u32(&mut out, rt.numerator);
            push_lit_slash(&mut out);
            push_dec_u32(&mut out, rt.prev_positive);
            push_lit_nl(&mut out);
            proof {
                assert(out@ == spec_render_flat(*r));
                lemma_render_flat(*r);
            }
        },
    }
    out
}

/// The position just past `lit` when it stands at `i` in `s`.
pub open spec fn after_lit(s: Seq<u8>, i: int, lit: Seq<u8>) -> Option<int> {
    if 0 <= i && i + lit.len() <= s.len() && s.subrange(i, i + lit.len()) == lit {
        Some(i + lit.len())
    } else {
        None
    }
}

/// Match an expected literal at position `i`.
fn expect_lit(s: &[u8], i: usize, lit: &Vec<u8>) -> (r: Option<usize>)
    requires
        i <= s@.len(),
    ensures
        match after_lit(s@, i as int, lit@) {
            Some(j) => r matches Some(p) && p == j,
            None => r is None,
        },
{
    if s.len() - i < lit.len() {
        return None;
    }
    let mut k: usize = 0;
    while k < lit.len()
        invariant
            0 <= k <= lit@.len(),
            i + lit@.len() <= s@.len(),
            s@.len() <= usize::MAX,
            forall|m: int| 0 <= m < k ==> s@[i + m] == lit@[m],
        decreases lit@.len() - k,
    {
        if s[i + k] != lit[k] {
            proof {
                assert(s@.subrange(i as int, i as int + lit@.len())[k as int] != lit@[k as int]);
            }
            return None;
        }
        k = k + 1;
    }
    proof {
        assert(s@.subrange(i as int, i as int + lit@.len()) =~= lit@);
    }
    Some(i + lit.len())
}

/// What parsing the timestamp line's prefix yields: the timestamp and
/// the position just past its last number.
pub open spec fn spec_parse_ts(s: Seq<u8>) -> Option<(Timestamp, int)> {
    match after_lit(s, 0, lit_as_of()) {
        None => None,
        Some(i) => match spec_parse_u32(s, i) {
            None => None,
            Some((year, i)) => match after_lit(s, i, lit_dash()) {
                None => None,
                Some(i) => match spec_parse_u32(s, i) {
                    None => None,
                    Some((month, i)) => match after_lit(s, i, lit_dash()) {
                        None => None,
                        Some(i) => match spec_parse_u32(s, i) {
                            None => None,
                            Some((day, i)) => match after_lit(s, i, lit_sp()) {
                                None => None,
                                Some(i) => match spec_parse_u32(s, i) {
                                    None => None,
                                    Some((hour, i)) => match after_lit(s, i, lit_colon()) {
                                        None => None,
                                        Some(i) => match spec_parse_u32(s, i) {
                                            None => None,
                                            Some((minute, i)) => match after_lit(
                                                s,
                                                i,
                                                lit_colon(),
                                            ) {
                                                None => None,
                                                Some(i) => match spec_parse_u32(s, i) {
                                                    None => None,
                                                    Some((second, i)) => Some(
                                                        (
                                                            Timestamp {
                                                                date: CalendarDate {
                                                                    year,
                                                                    month,
                                                                    day,
                                                                },
                                                                hour,
                                                                minute,
                                                                second,
                                                            },
                                                            i,
                                                        ),
                                                    ),
                                                },
                                            },
                                        },
                                    },
                                },
                            },
                        },
                    },
                },
            },
        },
    }
}

/// What parsing the serialized text yields: the report, if the text is a
/// well-formed rendering consumed to its end, else nothing.
pub open spec fn spec_parse_report(s: Seq<u8>) -> Option<DailyReport> {
    match spec_parse_ts(s) {
        None => None,
        Some((as_of, i)) => spec_parse_counts(s, i, as_of),
    }
}

/// Continue the parse at the count lines, then the optional ratio line.
pub open spec fn spec_parse_counts(s: Seq<u8>, i: int, as_of: Timestamp) -> Option<DailyReport> {
    match after_lit(s, i, lit_tested()) {
        None => None,
        Some(i) => match spec_parse_u32(s, i) {
            None => None,
            Some((tested, i)) => match after_lit(s, i, lit_positive()) {
                None => None,
                Some(i) => match spec_parse_u32(s, i) {
                    None => None,
                    Some((positive, i)) => match after_lit(s, i, lit_nl()) {
                        None => None,
                        Some(i) => spec_parse_ratio(s, i, as_of, tested, positive),
                    },
                },
            },
        },
    }
}

/// Continue the parse at the optional ratio line and validate the report.
pub open spec fn spec_parse_ratio(
    s: Seq<u8>,
    i: int,
    as_of: Timestamp,
    tested: u32,
    positive: u32,
) -> Option<DailyReport> {
    if i == s.len() {
        let r = DailyReport { info: Info { as_of, tested, positive }, ratio: None };
        if r.wf() {
            Some(r)
        } else {
            None
        }
    } else {
        match after_lit(s, i, lit_ratio()) {
            None => None,
            Some(i) => match spec_parse_u32(s, i) {
                None => None,
                Some((numerator, i)) => match after_lit(s, i, lit_slash()) {
                    None => None,
                    Some(i) => match spec_parse_u32(s, i) {
                        None => None,
                        Some((prev_positive, i)) => match after_lit(s, i, lit_nl()) {
                            None => None,
                            Some(i) => if i == s.len() {
                                let r = DailyReport {
                                    info: Info { as_of, tested, positive },
                                    ratio: Some(Ratio { numerator, prev_positive }),
                                };
                                if r.wf() {
                                    Some(r)
                                } else {
                                    None
                                }
                            } else {
                                None
                            },
                        },
                    },
                },
            },
        }
    }
}

/// Deserialize a report from the archive's text format. Returns `None` on
/// any malformed input; on success the report is well-formed.
pub fn parse_report(s: &[u8]) -> (r: Option<DailyReport>)
    ensures
        r == spec_parse_report(s@),
        r matches Some(rep) ==> rep.wf(),
{
    let mut l_as_of: Vec<u8> = Vec::new();
    push_lit_as_of(&mut l_as_of);
    let mut l_dash: Vec<u8> = Vec::new();
    push_lit_dash(&mut l_dash);
    let mut l_sp: Vec<u8> = Vec::new();
    push_lit_sp(&mut l_sp);
    let mut l_colon: Vec<u8> = Vec::new();
    push_lit_colon(&mut l_colon);
    let mut l_tested: Vec<u8> = Vec::new();
    push_lit_tested(&mut l_tested);
    let mut l_positive: Vec<u8> = Vec::new();
    push_lit_positive(&mut l_positive);
    let mut l_nl: Vec<u8> = Vec::new();
    push_lit_nl(&mut l_nl);
    let mut l_ratio: Vec<u8> = Vec::new();
    push_lit_ratio(&mut l_ratio);
    let mut l_slash: Vec<u8> = Vec::new();
    push_lit_slash(&mut l_slash);

    let i = match expect_lit(s, 0, &l_as_of) {
        Some(i) => i,
        None => {
            return None;
        },
    };
    let (year, i) = match parse_u32_at(s, i) {
        Some(p) => p,
        None => {
            return None;
        },
    };
    let i = match expect_lit(s, i, &l_dash) {
        Some(i) => i,
        None => {
            return None;
        },
    };
    let (month, i) = match parse_u32_at(s, i) {
        Some(p) => p,
        None => {
            return None;
        },
    };
    let i = match expect_lit(s, i, &l_dash) {
        Some(i) => i,
        None => {
            return None;
        },
    };
    let (day, i) = match parse_u32_at(s, i) {
        Some(p) => p,
        None => {
            return None;
        },
    };
    let i = match expect_lit(s, i, &l_sp) {
        Some(i) => i,
        None => {
            return None;
        },
    };
    let (hour, i) = match parse_u32_at(s, i) {
        Some(p) => p,
        None => {
            return None;
        },
    };
    let i = match expect_lit(s, i, &l_colon) {
        Some(i) => i,
        None => {
            return None;
        },
    };
    let (minute, i) = match parse_u32_at(s, i) {
        Some(p) => p,
        None => {
            return None;
        },
    };
    let i = match expect_lit(s, i, &l_colon) {
        Some(i) => i,
        None => {
            return None;
        },
    };
    let (second, i) = match parse_u32_at(s, i) {
        Some(p) => p,
        None => {
            return None;
        },
    };
    let as_of = Timestamp { date: CalendarDate { year, month, day }, hour, minute, second };
    let i = match expect_lit(s, i, &l_tested) {
        Some(i) => i,
        None => {
            return None;
        },
    };
    let (tested, i) = match parse_u32_at(s, i) {
        Some(p) => p,
        None => {
            return None;
        },
    };
    let i = match expect_lit(s, i, &l_positive) {
        Some(i) => i,
        None => {
            return None;
        },
    };
    let (positive, i) = match parse_u32_at(s, i) {
        Some(p) => p,
        None => {
            return None;
        },
    };
    let i = match expect_lit(s, i, &l_nl) {
        Some(i) => i,
        None => {
            return None;
        },
    };
    if i == s.len() {
        let rep = DailyReport { info: Info { as_of, tested, positive }, ratio: None };
        if as_of.check_wf() {
            return Some(rep);
        } else {
            return None;
        }
    }
    let i = match expect_lit(s, i, &l_ratio) {
        Some(i) => i,
        None => {
            return None;
        },
    };
    let (numerator, i) = match parse_u32_at(s, i) {
        Some(p) => p,
        None => {
            return None;
        },
    };
    let i = match expect_lit(s, i, &l_slash) {
        Some(i) => i,
        None => {
            return None;
        },
    };
    let (prev_positive, i) = match parse_u32_at(s, i) {
        Some(p) => p,
        None => {
            return None;
        },
    };
    let i = match expect_lit(s, i, &l_nl) {
        Some(i) => i,
        None => {
            return None;
        },
    };
    if i != s.len() {
        return None;
    }
    let rep = DailyReport {
        info: Info { as_of, tested, positive },
        ratio: Some(Ratio { numerator, prev_positive }),
    };
    if as_of.check_wf() && prev_positive > 0 && numerator == positive {
        Some(rep)
    } else {
        None
    }
}

/// When the suffix of `s` at `i` starts with `lit`, matching `lit` there
/// succeeds and leaves the suffix past it.
proof fn lemma_peel_lit(s: Seq<u8>, i: int, lit: Seq<u8>, t: Seq<u8>)
    requires
        0 <= i <= s.len(),
        s.subrange(i, s.len() as int) == lit + t,
    ensures
        after_lit(s, i, lit) == Some(i + lit.len()),
        s.subrange(i + lit.len(), s.len() as int) == t,
{
    assert((lit + t).len() == lit.len() + t.len());
    assert(s.subrange(i, s.len() as int).len() == s.len() - i);
    assert(s.len() - i == lit.len() + t.len());
    assert forall|j: int| i <= j < s.len() implies #[trigger] s[j] == (lit + t)[j - i] by {
        assert(s.subrange(i, s.len() as int)[j - i] == s[j]);
    }
    assert(s.subrange(i, i + lit.len()) =~= lit);
    assert(s.subrange(i + lit.len(), s.len() as int) =~= t);
}

/// When the suffix of `s` at `i` starts with the canonical digits of `n`
/// followed by a non-digit (or nothing), parsing a number there yields
/// exactly `n` and leaves the suffix past the digits.
proof fn lemma_peel_num(s: Seq<u8>, i: int, n: u32, t: Seq<u8>)
    requires
        0 <= i <= s.len(),
        s.subrange(i, s.len() as int) == dec_digits(n as nat) + t,
        t.len() == 0 || !is_digit(t[0]),
    ensures
        spec_parse_u32(s, i) == Some((n, i + dec_digits(n as nat).len())),
        s.subrange(i + dec_digits(n as nat).len(), s.len() as int) == t,
{
    lemma_dec_digits(n as nat);
    let ds = dec_digits(n as nat);
    assert((ds + t).len() == ds.len() + t.len());
    assert(s.subrange(i, s.len() as int).len() == s.len() - i);
    assert(s.len() - i == ds.len() + t.len());
    assert forall|j: int| i <= j < s.len() implies #[trigger] s[j] == (ds + t)[j - i] by {
        assert(s.subrange(i, s.len() as int)[j - i] == s[j]);
    }
    let j = i + ds.len();
    assert forall|k: int| i <= k < j implies is_digit(#[trigger] s[k]) by {
        assert(s[k] == (ds + t)[k - i]);
        assert((ds + t)[k - i] == ds[k - i]);
    }
    if j < s.len() {
        assert(s[j] == (ds + t)[j - i]);
        assert((ds + t)[j - i] == t[0]);
    }
    lemma_digit_run_end_is(s, i, j);
    assert(s.subrange(i, j) =~= ds);
    assert(s.subrange(j, s.len() as int) =~= t);
}

/// Parsing the count lines rendered at `i` hands the parse on to the
/// ratio line with the rendered values.
#[verifier::rlimit(100)]
#[verifier::spinoff_prover]
proof fn lemma_parse_counts_of(
    s: Seq<u8>,
    i: int,
    as_of: Timestamp,
    tested: u32,
    positive: u32,
    tail: Seq<u8>,
)
    requires
        0 <= i <= s.len(),
        s.subrange(i, s.len() as int) == lit_tested() + (dec_digits(tested as nat) + (
        lit_positive() + (dec_digits(positive as nat) + (lit_nl() + tail)))),
        tail.len() == 0 || !is_digit(tail[0]),
    ensures
        spec_parse_counts(s, i, as_of) == spec_parse_ratio(
            s,
            s.len() - tail.len(),
            as_of,
            tested,
            positive,
        ),
        s.subrange(s.len() - tail.len(), s.len() as int) == tail,
{
    let te = dec_digits(tested as nat);
    let po = dec_digits(positive as nat);
    let t17 = lit_nl() + tail;
    let t16 = po + t17;
    let t15 = lit_positive() + t16;
    let t14 = te + t15;
    lemma_peel_lit(s, i, lit_tested(), t14);
    let i13 = i + lit_tested().len();
    lemma_peel_num(s, i13, tested, t15);
    let i14 = i13 + te.len();
    lemma_peel_lit(s, i14, lit_positive(), t16);
    let i15 = i14 + lit_positive().len();
    lemma_peel_num(s, i15, positive, t17);
    let i16 = i15 + po.len();
    lemma_peel_lit(s, i16, lit_nl(), tail);
    let i17 = i16 + lit_nl().len();
    assert(s.subrange(i17, s.len() as int).len() == tail.len());
    assert(i17 == s.len() - tail.len());
}

/// Parsing the rendered ratio line (or its absence) completes the report.
#[verifier::rlimit(100)]
#[verifier::spinoff_prover]
proof fn lemma_parse_ratio_of(
    s: Seq<u8>,
    i: int,
    as_of: Timestamp,
    tested: u32,
    positive: u32,
    ratio: Option<Ratio>,
)
    requires
        0 <= i <= s.len(),
        s.subrange(i, s.len() as int) == spec_render_ratio(ratio),
        (DailyReport { info: Info { as_of, tested, positive }, ratio }).wf(),
    ensures
        spec_parse_ratio(s, i, as_of, tested, positive) == Some(
            DailyReport { info: Info { as_of, tested, positive }, ratio },
        ),
{
    match ratio {
        None => {
            assert(s.subrange(i, s.len() as int).len() == 0);
            assert(i == s.len());
        },
        Some(rt) => {
            let nu = dec_digits(rt.numerator as nat);
            let pv = dec_digits(rt.prev_positive as nat);
            let u4 = pv + lit_nl();
            let u3 = lit_slash() + u4;
            let u2 = nu + u3;
            assert(s.subrange(i, s.len() as int) == lit_ratio() + u2);
            assert(s.subrange(i, s.len() as int).len() >= lit_ratio().len());
            assert(i < s.len());
            lemma_peel_lit(s, i, lit_ratio(), u2);
            let j1 = i + lit_ratio().len();
            lemma_peel_num(s, j1, rt.numerator, u3);
            let j2 = j1 + nu.len();
            lemma_peel_lit(s, j2, lit_slash(), u4);
            let j3 = j2 + lit_slash().len();
            lemma_peel_num(s, j3, rt.prev_positive, lit_nl());
            let j4 = j3 + pv.len();
            lemma_peel_lit(s, j4, lit_nl(), Seq::<u8>::empty());
            let j5 = j4 + lit_nl().len();
            assert(s.subrange(j5, s.len() as int).len() == 0);
            assert(j5 == s.len());
        },
    }
}

/// Parsing the rendered timestamp line hands back the timestamp and the
/// position where the count lines begin.
#[verifier::rlimit(100)]
#[verifier::spinoff_prover]
proof fn lemma_parse_ts_of(s: Seq<u8>, ts: Timestamp, rest: Seq<u8>)
    requires
        s == lit_as_of() + (dec_digits(ts.date.year as nat) + (lit_dash() + (dec_digits(
            ts.date.month as nat,
        ) + (lit_dash() + (dec_digits(ts.date.day as nat) + (lit_sp() + (dec_digits(
            ts.hour as nat,
        ) + (lit_colon() + (dec_digits(ts.minute as nat) + (lit_colon() + (dec_digits(
            ts.second as nat,
        ) + rest))))))))))),
        rest.len() > 0,
        !is_digit(rest[0]),
    ensures
        spec_parse_ts(s) == Some((ts, s.len() - rest.len())),
        s.subrange(s.len() - rest.len(), s.len() as int) == rest,
{
    let y = dec_digits(ts.date.year as nat);
    let mo = dec_digits(ts.date.month as nat);
    let dy = dec_digits(ts.date.day as nat);
    let hh = dec_digits(ts.hour as nat);
    let mi = dec_digits(ts.minute as nat);
    let sc = dec_digits(ts.second as nat);

    let t12 = sc + rest;
    let t11 = lit_colon() + t12;
    let t10 = mi + t11;
    let t9 = lit_colon() + t10;
    let t8 = hh + t9;
    let t7 = lit_sp() + t8;
    let t6 = dy + t7;
    let t5 = lit_dash() + t6;
    let t4 = mo + t5;
    let t3 = lit_dash() + t4;
    let t2 = y + t3;
    assert(s == lit_as_of() + t2);

    assert(s.subrange(0, s.len() as int) =~= s);
    lemma_peel_lit(s, 0, lit_as_of(), t2);
    let i1 = 0 + lit_as_of().len() as int;
    lemma_peel_num(s, i1, ts.date.year, t3);
    let i2 = i1 + y.len();
    lemma_peel_lit(s, i2, lit_dash(), t4);
    let i3 = i2 + lit_dash().len();
    lemma_peel_num(s, i3, ts.date.month, t5);
    let i4 = i3 + mo.len();
    lemma_peel_lit(s, i4, lit_dash(), t6);
    let i5 = i4 + lit_dash().len();
    lemma_peel_num(s, i5, ts.date.day, t7);
    let i6 = i5 + dy.len();
    lemma_peel_lit(s, i6, lit_sp(), t8);
    let i7 = i6 + lit_sp().len();
    lemma_peel_num(s, i7, ts.hour, t9);
    let i8 = i7 + hh.len();
    lemma_peel_lit(s, i8, lit_colon(), t10);
    let i9 = i8 + lit_colon().len();
    lemma_peel_num(s, i9, ts.minute, t11);
    let i10 = i9 + mi.len();
    lemma_peel_lit(s, i10, lit_colon(), t12);
    let i11 = i10 + lit_colon().len();
    lemma_peel_num(s, i11, ts.second, rest);
    let i12 = i11 + sc.len();
    assert(s.subrange(i12, s.len() as int).len() == rest.len());
    assert(i12 == s.len() - rest.len());
    assert(ts == Timestamp {
        date: CalendarDate { year: ts.date.year, month: ts.date.month, day: ts.date.day },
        hour: ts.hour,
        minute: ts.minute,
        second: ts.second,
    });
}

/// The rendered ratio line never begins with a digit.
proof fn lemma_render_ratio_head(ratio: Option<Ratio>)
    ensures
        spec_render_ratio(ratio).len() == 0 || !is_digit(spec_render_ratio(ratio)[0]),
{
    match ratio {
        None => {
        },
        Some(rt) => {
            assert(spec_render_ratio(ratio)[0] == lit_ratio()[0]);
        },
    }
}

/// Round trip of the archive text format: parsing what was rendered from
/// any well-formed report gives that report back.
#[verifier::rlimit(100)]
#[verifier::spinoff_prover]
pub proof fn lemma_render_parse_report(r: DailyReport)
    requires
        r.wf(),
    ensures
        spec_parse_report(spec_render_report(r)) == Some(r),
{
    let s = spec_render_report(r);
    let tail = spec_render_ratio(r.ratio);
    let t17 = lit_nl() + tail;
    let t16 = dec_digits(r.info.positive as nat) + t17;
    let t15 = lit_positive() + t16;
    let t14 = dec_digits(r.info.tested as nat) + t15;
    let t13 = lit_tested() + t14;

    let ts = r.info.as_of;
    assert(s == lit_as_of() + (dec_digits(ts.date.year as nat) + (lit_dash() + (dec_digits(
        ts.date.month as nat,
    ) + (lit_dash() + (dec_digits(ts.date.day as nat) + (lit_sp() + (dec_digits(
        ts.hour as nat,
    ) + (lit_colon() + (dec_digits(ts.minute as nat) + (lit_colon() + (dec_digits(
        ts.second as nat,
    ) + t13))))))))))));
    lemma_parse_ts_of(s, ts, t13);
    let i12 = s.len() - t13.len();
    lemma_render_ratio_head(r.ratio);
    assert(s.subrange(i12, s.len() as int) == lit_tested() + (dec_digits(r.info.tested as nat)
        + (lit_positive() + (dec_digits(r.info.positive as nat) + (lit_nl() + tail)))));
    lemma_parse_counts_of(s, i12, ts, r.info.tested, r.info.positive, tail);
    assert(s.subrange(s.len() - tail.len(), s.len() as int) == spec_render_ratio(r.ratio));
    lemma_parse_ratio_of(s, s.len() - tail.len(), ts, r.info.tested, r.info.positive, r.ratio);
    assert(r == DailyReport {
        info: Info { as_of: ts, tested: r.info.tested, positive: r.info.positive },
        ratio: r.ratio,
    });
}

} // verus!
