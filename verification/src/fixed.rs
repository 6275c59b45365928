//! Fixed-point arithmetic helpers for milli-unit quantities, and the
//! decimal-text reading that produces them.

use vstd::prelude::*;
use vstd::string::StrSliceExecFns;
use crate::text::{char_pos, lemma_char_pos_ge, lemma_char_pos_le, lemma_char_pos_le_len};

verus! {

/// Largest magnitude accepted for a raw estimate input, in milli-units
/// (one billion whole units). Keeping inputs within this bound keeps every
/// derived quantity and every iteration sum far from `i64` overflow.
pub const MAX_ABS_MILLI: i64 = 1_000_000_000_000;

/// Division by six that truncates toward zero, the rounding used for all
/// PERT-derived quantities.
pub open spec fn div6_trunc(x: int) -> int {
    if x >= 0 {
        x / 6
    } else {
        -((-x) / 6)
    }
}

/// Truncating-toward-zero division by six on machine integers.
pub fn div6(x: i64) -> (r: i64)
    requires
        -MAX_ABS_MILLI * 6 <= x <= MAX_ABS_MILLI * 6,
    ensures
        r == div6_trunc(x as int),
{
    if x >= 0 {
        x / 6
    } else {
        -((-x) / 6)
    }
}

/// The PERT weighted mean of three milli-unit estimates.
pub open spec fn pert_mean(o: int, m: int, p: int) -> int {
    div6_trunc(o + 4 * m + p)
}

/// The PERT standard deviation of three milli-unit estimates; negative when
/// the pessimistic input lies below the optimistic one.
pub open spec fn pert_std_dev(o: int, p: int) -> int {
    div6_trunc(p - o)
}

/// A decimal digit.
pub open spec fn is_digit(c: char) -> bool {
    '0' <= c && c <= '9'
}

/// The numeric value of one decimal digit.
pub open spec fn digit_val(c: char) -> int {
    c as int - '0' as int
}

/// Every character of the sequence is a decimal digit.
pub open spec fn all_digits(s: Seq<char>) -> bool {
    forall|i: int| 0 <= i < s.len() ==> is_digit(#[trigger] s[i])
}

/// The number written by a sequence of decimal digits, most significant
/// first; an empty sequence writes zero.
pub open spec fn digits_value(s: Seq<char>) -> int
    decreases s.len(),
{
    if s.len() == 0 {
        0
    } else {
        digits_value(s.drop_last()) * 10 + digit_val(s.last())
    }
}

/// A digit string's value is never negative.
pub proof fn lemma_digits_value_nonneg(s: Seq<char>)
    requires
        all_digits(s),
    ensures
        digits_value(s) >= 0,
    decreases s.len(),
{
    if s.len() > 0 {
        assert forall|i: int| 0 <= i < s.drop_last().len() implies is_digit(
            #[trigger] s.drop_last()[i],
        ) by {
            assert(s.drop_last()[i] == s[i]);
        };
        lemma_digits_value_nonneg(s.drop_last());
        assert(is_digit(s.last()));
    }
}

/// Appending one digit multiplies the value by ten and adds the digit.
pub proof fn lemma_digits_value_append(s: Seq<char>, c: char)
    ensures
        digits_value(s.push(c)) == digits_value(s) * 10 + digit_val(c),
{
    assert(s.push(c).drop_last() =~= s);
    assert(s.push(c).last() == c);
}

/// At most three digits write a value below one thousand.
pub proof fn lemma_digits_value_small(s: Seq<char>)
    requires
        all_digits(s),
        s.len() <= 3,
    ensures
        0 <= digits_value(s) < 1000,
        s.len() <= 2 ==> digits_value(s) < 100,
        s.len() <= 1 ==> digits_value(s) < 10,
    decreases s.len(),
{
    if s.len() > 0 {
        assert forall|i: int| 0 <= i < s.drop_last().len() implies is_digit(
            #[trigger] s.drop_last()[i],
        ) by {
            assert(s.drop_last()[i] == s[i]);
        };
        lemma_digits_value_small(s.drop_last());
        assert(is_digit(s.last()));
    }
}

/// Where the number's digits begin: one past a leading sign, else at the
/// start.
pub open spec fn body_start(s: Seq<char>) -> int {
    if s.len() > 0 && (s[0] == '-' || s[0] == '+') {
        1
    } else {
        0
    }
}

/// The number carries a leading minus sign.
pub open spec fn is_negative(s: Seq<char>) -> bool {
    s.len() > 0 && s[0] == '-'
}

/// The characters of the number after any sign.
pub open spec fn decimal_body(s: Seq<char>) -> Seq<char> {
    s.subrange(body_start(s), s.len() as int)
}

/// The digits before the first dot (all of the body when there is none).
pub open spec fn int_part(b: Seq<char>) -> Seq<char> {
    b.subrange(0, char_pos(b, '.'))
}

/// The characters after the first dot; empty when there is no dot.
pub open spec fn frac_part(b: Seq<char>) -> Seq<char> {
    if char_pos(b, '.') < b.len() {
        b.subrange(char_pos(b, '.') + 1, b.len() as int)
    } else {
        Seq::empty()
    }
}

/// A well-formed unsigned decimal: digits around at most one dot, with at
/// least one digit somewhere.
pub open spec fn valid_decimal_body(b: Seq<char>) -> bool {
    &&& all_digits(int_part(b))
    &&& all_digits(frac_part(b))
    &&& int_part(b).len() + frac_part(b).len() > 0
}

/// The milli-unit value of a fractional digit string: its first three
/// digits, padded with zeros on the right; further digits are truncated
/// toward zero.
pub open spec fn frac_milli(f: Seq<char>) -> int {
    if f.len() == 0 {
        0
    } else if f.len() == 1 {
        digits_value(f) * 100
    } else if f.len() == 2 {
        digits_value(f) * 10
    } else {
        digits_value(f.subrange(0, 3))
    }
}

/// The milli-unit magnitude written by an unsigned decimal body.
pub open spec fn body_milli(b: Seq<char>) -> int {
    digits_value(int_part(b)) * 1000 + frac_milli(frac_part(b))
}

/// What a decimal string denotes in milli-units: its signed value when it
/// is well formed and its magnitude is representable, nothing otherwise.
pub open spec fn parse_decimal_milli(s: Seq<char>) -> Option<int> {
    let b = decimal_body(s);
    if valid_decimal_body(b) && body_milli(b) <= MAX_ABS_MILLI {
        if is_negative(s) {
            Some(-body_milli(b))
        } else {
            Some(body_milli(b))
        }
    } else {
        None
    }
}

/// Executable twin of `is_digit`.
pub fn is_digit_char(c: char) -> (r: bool)
    ensures
        r == is_digit(c),
{
    '0' <= c && c <= '9'
}

/// The numeric value of a digit character.
fn digit_of(c: char) -> (d: i64)
    requires
        is_digit(c),
    ensures
        d == digit_val(c),
{
    (c as u32 - '0' as u32) as i64
}

/// A running digit accumulator in whole units, clamped just above the
/// largest representable magnitude.
spec fn clamped_units(v: int) -> int {
    if v <= 1_000_000_000 {
        v
    } else {
        1_000_000_001
    }
}

/// The fractional contribution is under one whole unit.
proof fn lemma_frac_milli_bounds(f: Seq<char>)
    requires
        all_digits(f),
    ensures
        0 <= frac_milli(f) <= 999,
{
    if f.len() == 0 {
    } else if f.len() <= 2 {
        lemma_digits_value_small(f);
    } else {
        let head = f.subrange(0, 3);
        assert forall|i: int| 0 <= i < head.len() implies is_digit(#[trigger] head[i]) by {
            assert(head[i] == f[i]);
        };
        lemma_digits_value_small(head);
    }
}

/// Reads a decimal string — an optional sign, digits, at most one dot —
/// into milli-units, truncating past the third fractional digit. Yields
/// nothing when the text is not a well-formed decimal or when its magnitude
/// exceeds `MAX_ABS_MILLI`.
pub fn parse_milli(s: &str) -> (r: Option<i64>)
    ensures
        r is Some <==> parse_decimal_milli(s@) is Some,
        r is Some ==> r->Some_0 == parse_decimal_milli(s@)->Some_0,
        r is Some ==> -MAX_ABS_MILLI <= r->Some_0 <= MAX_ABS_MILLI,
{
    let n = s.unicode_len();
    let mut neg = false;
    let mut istart: usize = 0;
    if n > 0 {
        let c0 = s.get_char(0);
        if c0 == '-' {
            neg = true;
            istart = 1;
        } else if c0 == '+' {
            istart = 1;
        }
    }
    let ghost b = decimal_body(s@);
    proof {
        assert(istart as int == body_start(s@));
        assert(neg == is_negative(s@));
        assert(b =~= s@.subrange(istart as int, n as int));
    }
    let mut i: usize = istart;
    let mut acc: i64 = 0;
    while i < n && is_digit_char(s.get_char(i))
        invariant
            n == s@.len(),
            istart as int == body_start(s@),
            neg == is_negative(s@),
            b == s@.subrange(istart as int, n as int),
            istart <= i <= n,
            forall|j: int| istart <= j < i ==> is_digit(#[trigger] s@[j]),
            0 <= acc <= 1_000_000_001,
            acc as int == clamped_units(digits_value(s@.subrange(istart as int, i as int))),
        decreases n - i,
    {
        let c = s.get_char(i);
        let d = digit_of(c);
        proof {
            let pref = s@.subrange(istart as int, i as int);
            assert(s@.subrange(istart as int, i as int + 1) =~= pref.push(s@[i as int]));
            lemma_digits_value_append(pref, s@[i as int]);
            assert forall|j: int| 0 <= j < pref.len() implies is_digit(#[trigger] pref[j]) by {
                assert(pref[j] == s@[istart + j]);
            };
            lemma_digits_value_nonneg(pref);
        }
        acc = acc * 10 + d;
        if acc > 1_000_000_000 {
            acc = 1_000_000_001;
        }
        i += 1;
    }
    let ip: usize = i;
    let mut fstart: usize = n;
    let mut frac_val: i64 = 0;
    let mut frac_cap: usize = 0;
    proof {
        assert forall|j: int| 0 <= j < ip - istart implies b[j] != '.' by {
            assert(b[j] == s@[istart + j]);
            assert(is_digit(s@[istart + j]));
        };
        lemma_char_pos_le_len(b, '.');
        lemma_char_pos_ge(b, '.', ip as int - istart as int);
    }
    if ip < n {
        let c = s.get_char(ip);
        if c != '.' {
            proof {
                assert(b[ip as int - istart as int] == s@[ip as int]);
                assert forall|j: int| 0 <= j < ip + 1 - istart implies b[j] != '.' by {
                    assert(b[j] == s@[istart + j]);
                };
                lemma_char_pos_ge(b, '.', ip as int + 1 - istart as int);
                assert(int_part(b)[ip as int - istart as int] == s@[ip as int]);
                assert(!valid_decimal_body(b));
            }
            return None;
        }
        i = ip + 1;
        fstart = i;
        while i < n
            invariant
                n == s@.len(),
                istart as int == body_start(s@),
                neg == is_negative(s@),
                b == s@.subrange(istart as int, n as int),
                istart <= ip < n,
                s@[ip as int] == '.',
                fstart == ip + 1,
                fstart <= i <= n,
                forall|j: int| istart <= j < ip ==> is_digit(#[trigger] s@[j]),
                forall|j: int| fstart <= j < i ==> is_digit(#[trigger] s@[j]),
                frac_cap as int == (if i - fstart <= 3 {
                    i as int - fstart as int
                } else {
                    3
                }),
                0 <= frac_val <= 999,
                frac_val as int == digits_value(
                    s@.subrange(fstart as int, fstart as int + frac_cap as int),
                ),
                0 <= acc <= 1_000_000_001,
                acc as int == clamped_units(
                    digits_value(s@.subrange(istart as int, ip as int)),
                ),
            decreases n - i,
        {
            let c2 = s.get_char(i);
            if !is_digit_char(c2) {
                proof {
                    assert forall|j: int| 0 <= j < ip - istart implies b[j] != '.' by {
                        assert(b[j] == s@[istart + j]);
                        assert(is_digit(s@[istart + j]));
                    };
                    lemma_char_pos_ge(b, '.', ip as int - istart as int);
                    assert(b[ip as int - istart as int] == s@[ip as int]);
                    lemma_char_pos_le(b, '.', ip as int - istart as int);
                    assert(char_pos(b, '.') == ip as int - istart as int);
                    let f = frac_part(b);
                    assert(f[i as int - fstart as int] == s@[i as int]);
                    assert(!valid_decimal_body(b));
                }
                return None;
            }
            if frac_cap < 3 {
                proof {
                    let fpref = s@.subrange(fstart as int, fstart as int + frac_cap as int);
                    assert(i as int == fstart as int + frac_cap as int);
                    assert(s@.subrange(fstart as int, fstart as int + frac_cap as int + 1)
                        =~= fpref.push(s@[i as int]));
                    lemma_digits_value_append(fpref, s@[i as int]);
                    assert forall|j: int| 0 <= j < fpref.len() implies is_digit(
                        #[trigger] fpref[j],
                    ) by {
                        assert(fpref[j] == s@[fstart + j]);
                    };
                    lemma_digits_value_small(fpref);
                }
                frac_val = frac_val * 10 + digit_of(c2);
                frac_cap += 1;
            }
            i += 1;
        }
    }
    proof {
        if ip < n {
            lemma_char_pos_le(b, '.', ip as int - istart as int);
            assert(char_pos(b, '.') == ip as int - istart as int);
            assert(int_part(b) =~= s@.subrange(istart as int, ip as int));
            assert(frac_part(b) =~= s@.subrange(fstart as int, n as int));
        } else {
            assert(char_pos(b, '.') == b.len());
            assert(int_part(b) =~= s@.subrange(istart as int, ip as int));
            assert(frac_part(b) =~= s@.subrange(fstart as int, n as int));
        }
        assert forall|j: int| 0 <= j < int_part(b).len() implies is_digit(
            #[trigger] int_part(b)[j],
        ) by {
            assert(int_part(b)[j] == s@[istart + j]);
        };
        assert forall|j: int| 0 <= j < frac_part(b).len() implies is_digit(
            #[trigger] frac_part(b)[j],
        ) by {
            assert(frac_part(b)[j] == s@[fstart + j]);
        };
        lemma_frac_milli_bounds(frac_part(b));
        lemma_digits_value_nonneg(int_part(b));
    }
    let int_len: usize = ip - istart;
    let frac_len: usize = n - fstart;
    if int_len == 0 && frac_len == 0 {
        return None;
    }
    if acc > 1_000_000_000 {
        proof {
            assert(digits_value(int_part(b)) > 1_000_000_000);
            assert(body_milli(b) > MAX_ABS_MILLI);
        }
        return None;
    }
    let frac_ms: i64 = if frac_len >= 3 {
        proof {
            assert(frac_part(b).subrange(0, 3) =~= s@.subrange(
                fstart as int,
                fstart as int + 3,
            ));
        }
        frac_val
    } else if frac_len == 2 {
        proof {
            lemma_digits_value_small(frac_part(b));
        }
        frac_val * 10
    } else if frac_len == 1 {
        proof {
            lemma_digits_value_small(frac_part(b));
        }
        frac_val * 100
    } else {
        0
    };
    proof {
        assert(frac_ms == frac_milli(frac_part(b)));
        assert(acc == digits_value(int_part(b)));
    }
    let magnitude: i64 = acc * 1000 + frac_ms;
    if magnitude > MAX_ABS_MILLI {
        return None;
    }
    proof {
        assert(magnitude == body_milli(b));
        assert(valid_decimal_body(b));
    }
    if neg {
        Some(-magnitude)
    } else {
        Some(magnitude)
    }
}

} // verus!
