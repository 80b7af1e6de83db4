//! Decimal digit runs: canonical rendering of `u32` values and
//! bounds-checked parsing of digit runs out of untrusted byte text.

use vstd::prelude::*;

verus! {

/// Whether a byte is an ASCII decimal digit.
pub open spec fn is_digit(b: u8) -> bool {
    48 <= b && b <= 57
}

/// The canonical decimal digits of `n`, most significant first, with no
/// leading zeros (a lone `0` for zero).
pub open spec fn dec_digits(n: nat) -> Seq<u8>
    decreases n,
{
    if n < 10 {
        seq![(48 + n) as u8]
    } else {
        dec_digits(n / 10).push((48 + n % 10) as u8)
    }
}

/// The numeric value of a run of digit bytes, most significant first.
pub open spec fn digits_val(s: Seq<u8>) -> nat
    decreases s.len(),
{
    if s.len() == 0 {
        0
    } else {
        digits_val(s.drop_last()) * 10 + (if is_digit(s.last()) {
            (s.last() - 48) as nat
        } else {
            0
        })
    }
}

/// The index just past the run of digits starting at `i`.
pub open spec fn digit_run_end(s: Seq<u8>, i: int) -> int
    decreases s.len() - i,
{
    if i < 0 || i >= s.len() {
        i
    } else if is_digit(s[i]) {
        digit_run_end(s, i + 1)
    } else {
        i
    }
}

/// Canonical digits are at least one byte, all digits, and carry the value
/// they were rendered from.
pub proof fn lemma_dec_digits(n: nat)
    ensures
        dec_digits(n).len() >= 1,
        forall|k: int| 0 <= k < dec_digits(n).len() ==> is_digit(#[trigger] dec_digits(n)[k]),
        digits_val(dec_digits(n)) == n,
    decreases n,
{
    if n < 10 {
        let s1 = seq![(48 + n) as u8];
        assert(s1.drop_last() =~= Seq::<u8>::empty());
        assert(digits_val(Seq::<u8>::empty()) == 0);
        assert(is_digit(s1.last()));
        assert(digits_val(s1) == 0 * 10 + ((s1.last() - 48) as nat));
    } else {
        lemma_dec_digits(n / 10);
        vstd::arithmetic::div_mod::lemma_fundamental_div_mod(n as int, 10);
        assert(dec_digits(n).drop_last() =~= dec_digits(n / 10));
        assert(is_digit(dec_digits(n).last()));
        assert(digits_val(dec_digits(n)) == digits_val(dec_digits(n / 10)) * 10 + n % 10);
    }
}

/// The value of a digit run only grows as the run is extended.
pub proof fn lemma_digits_val_mono(s: Seq<u8>, m: int)
    requires
        0 <= m <= s.len(),
    ensures
        digits_val(s.subrange(0, m)) <= digits_val(s),
    decreases s.len() - m,
{
    if m == s.len() {
        assert(s.subrange(0, m) =~= s);
    } else {
        lemma_digits_val_mono(s, m + 1);
        assert(s.subrange(0, m + 1).drop_last() =~= s.subrange(0, m));
        assert(digits_val(s.subrange(0, m + 1)) >= digits_val(s.subrange(0, m)));
    }
}

/// `digit_run_end` lands on the first non-digit at or after `i`.
pub proof fn lemma_digit_run_end(s: Seq<u8>, i: int)
    requires
        0 <= i <= s.len(),
    ensures
        i <= digit_run_end(s, i) <= s.len(),
        forall|k: int| i <= k < digit_run_end(s, i) ==> is_digit(#[trigger] s[k]),
        digit_run_end(s, i) == s.len() || !is_digit(s[digit_run_end(s, i)]),
    decreases s.len() - i,
{
    if i < s.len() && is_digit(s[i]) {
        lemma_digit_run_end(s, i + 1);
    }
}

/// Any index bounding an all-digit stretch that ends at the text's end or
/// at a non-digit is exactly where the digit run ends.
pub proof fn lemma_digit_run_end_is(s: Seq<u8>, i: int, j: int)
    requires
        0 <= i <= j <= s.len(),
        forall|k: int| i <= k < j ==> is_digit(#[trigger] s[k]),
        j == s.len() || !is_digit(s[j]),
    ensures
        digit_run_end(s, i) == j,
    decreases j - i,
{
    if i < j {
        lemma_digit_run_end_is(s, i + 1, j);
    }
}

/// What parsing a decimal number at position `i` yields: `None` when no
/// digit stands at `i` or the run's value exceeds `u32::MAX`, else the
/// value and the position just past the run.
pub open spec fn spec_parse_u32(s: Seq<u8>, i: int) -> Option<(u32, int)> {
    let j = digit_run_end(s, i);
    if j == i {
        None
    } else if digits_val(s.subrange(i, j)) > u32::MAX {
        None
    } else {
        Some((digits_val(s.subrange(i, j)) as u32, j))
    }
}

/// Parse the maximal run of decimal digits at `i` as a `u32`, rejecting
/// an empty run and overflow.
pub fn parse_u32_at(s: &[u8], i: usize) -> (r: Option<(u32, usize)>)
    requires
        i <= s@.len(),
    ensures
        match spec_parse_u32(s@, i as int) {
            Some((v, j)) => r matches Some(p) && p.0 == v && p.1 == j && i <= p.1 <= s@.len(),
            None => r is None,
        },
{
    proof {
        lemma_digit_run_end(s@, i as int);
    }
    let ghost jj = digit_run_end(s@, i as int);
    let len = s.len();
    let mut k = i;
    let mut acc: u32 = 0;
    while k < len && 48 <= s[k] && s[k] <= 57
        invariant
            i <= k <= len,
            len == s@.len(),
            forall|m: int| i <= m < k ==> is_digit(#[trigger] s@[m]),
            acc == digits_val(s@.subrange(i as int, k as int)),
            i <= jj <= len,
            forall|m: int| i <= m < jj ==> is_digit(#[trigger] s@[m]),
            jj == len || !is_digit(s@[jj]),
            k <= jj,
        decreases len - k,
    {
        let d = s[k] - 48;
        proof {
            assert(is_digit(s@[k as int]));
            assert(s@.subrange(i as int, k as int + 1).drop_last() =~= s@.subrange(
                i as int,
                k as int,
            ));
            assert(digits_val(s@.subrange(i as int, k as int + 1)) == acc * 10 + d);
        }
        let wide: u64 = acc as u64 * 10 + d as u64;
        if wide > u32::MAX as u64 {
            proof {
                assert(jj == digit_run_end(s@, i as int)) by {
                    lemma_digit_run_end_is(s@, i as int, jj);
                };
                let run = s@.subrange(i as int, jj);
                lemma_digits_val_mono(run, k as int + 1 - i);
                assert(run.subrange(0, k as int + 1 - i) =~= s@.subrange(i as int, k as int + 1));
                assert(digits_val(run) > u32::MAX);
            }
            return None;
        }
        acc = wide as u32;
        k = k + 1;
        proof {
            if k > jj {
                assert(is_digit(s@[jj]));
                assert(false);
            }
        }
    }
    proof {
        assert(k == jj) by {
            if k < jj {
                assert(is_digit(s@[k as int]));
            }
            lemma_digit_run_end_is(s@, i as int, k as int);
        };
    }
    if k == i {
        None
    } else {
        Some((acc, k))
    }
}

/// The value of a digit run, clamped to what a `u32` can hold.
pub open spec fn sat32(n: nat) -> u32 {
    if n > u32::MAX {
        u32::MAX
    } else {
        n as u32
    }
}

/// Parse the maximal run of decimal digits starting at the digit at `i`,
/// clamping the value to `u32::MAX` on overflow.
pub fn parse_u32_sat(s: &[u8], i: usize) -> (r: (u32, usize))
    requires
        i < s@.len(),
        is_digit(s@[i as int]),
    ensures
        r.1 == digit_run_end(s@, i as int),
        r.0 == sat32(digits_val(s@.subrange(i as int, digit_run_end(s@, i as int)))),
{
    proof {
        lemma_digit_run_end(s@, i as int);
    }
    let ghost jj = digit_run_end(s@, i as int);
    let len = s.len();
    let mut k = i;
    let mut acc: u32 = 0;
    while k < len && 48 <= s[k] && s[k] <= 57
        invariant
            i <= k <= len,
            len == s@.len(),
            forall|m: int| i <= m < k ==> is_digit(#[trigger] s@[m]),
            acc == sat32(digits_val(s@.subrange(i as int, k as int))),
            i <= jj <= len,
            forall|m: int| i <= m < jj ==> is_digit(#[trigger] s@[m]),
            jj == len || !is_digit(s@[jj]),
            k <= jj,
        decreases len - k,
    {
        let d = s[k] - 48;
        proof {
            assert(is_digit(s@[k as int]));
            assert(s@.subrange(i as int, k as int + 1).drop_last() =~= s@.subrange(
                i as int,
                k as int,
            ));
            assert(digits_val(s@.subrange(i as int, k as int + 1)) == digits_val(
                s@.subrange(i as int, k as int),
            ) * 10 + d);
        }
        let wide: u64 = acc as u64 * 10 + d as u64;
        let ghost acc0 = acc;
        if wide > u32::MAX as u64 {
            acc = u32::MAX;
            proof {
                let v = digits_val(s@.subrange(i as int, k as int));
                assert(v * 10 + d > u32::MAX) by {
                    if v <= u32::MAX {
                        assert(acc0 as u64 * 10 + d as u64 == v * 10 + d);
                    } else {
                        assert(v * 10 >= v);
                    }
                };
            }
        } else {
            acc = wide as u32;
        }
        k = k + 1;
        proof {
            if k > jj {
                assert(is_digit(s@[jj]));
                assert(false);
            }
        }
    }
    proof {
        assert(k == jj) by {
            if k < jj {
                assert(is_digit(s@[k as int]));
            }
            lemma_digit_run_end_is(s@, i as int, k as int);
        };
    }
    (acc, k)
}

/// Append the canonical decimal digits of `n`.
pub fn push_dec_u32(out: &mut Vec<u8>, n: u32)
    ensures
        final(out)@ == old(out)@ + dec_digits(n as nat),
    decreases n,
{
    if n < 10 {
        out.push(48 + n as u8);
        proof {
            assert(out@ =~= old(out)@ + dec_digits(n as nat));
        }
    } else {
        push_dec_u32(out, n / 10);
        out.push(48 + (n % 10) as u8);
        proof {
            assert(out@ =~= old(out)@ + dec_digits(n as nat));
        }
    }
}

} // verus!
