//! Text helpers for the card model: ASCII case folding, the decimal
//! integer grammar that `i64` accepts, and decimal rendering of
//! integers, each with an exact specification.

use vstd::prelude::*;
use vstd::string::StrSliceExecFns;
use vstd::string::StringExecFns;
use crate::arith::pow10;
use crate::arith::lemma_pow10_pos;

verus! {

/// ASCII lowercase of one character; anything outside `A`..`Z` is kept.
pub open spec fn lower_char(c: char) -> char {
    if 'A' <= c && c <= 'Z' {
        ((c as u8 + 32) as u8) as char
    } else {
        c
    }
}

/// ASCII lowercase of a character sequence.
pub open spec fn lower_seq(s: Seq<char>) -> Seq<char> {
    s.map_values(|c: char| lower_char(c))
}

pub open spec fn is_digit_char(c: char) -> bool {
    '0' <= c && c <= '9'
}

pub open spec fn digit_val(c: char) -> int {
    c as u8 - 48
}

pub open spec fn all_digits(s: Seq<char>) -> bool {
    forall|i: int| 0 <= i < s.len() ==> is_digit_char(#[trigger] s[i])
}

/// Value of a most-significant-first digit sequence.
pub open spec fn digits_val(s: Seq<char>) -> int
    decreases s.len(),
{
    if s.len() == 0 {
        0
    } else {
        digits_val(s.drop_last()) * 10 + digit_val(s.last())
    }
}

/// The token an optionally signed decimal integer literal denotes, if
/// the text is one: an optional `+` or `-`, then one or more digits.
pub open spec fn int_token_val(s: Seq<char>) -> Option<int> {
    if s.len() >= 1 && (s[0] == '+' || s[0] == '-') {
        let mag = s.subrange(1, s.len() as int);
        if mag.len() >= 1 && all_digits(mag) {
            Some(
                if s[0] == '-' {
                    -digits_val(mag)
                } else {
                    digits_val(mag)
                },
            )
        } else {
            None
        }
    } else if s.len() >= 1 && all_digits(s) {
        Some(digits_val(s))
    } else {
        None
    }
}

/// The value `str::parse::<i64>` accepts for this text: the integer
/// token, further required to fit in `i64`.
pub open spec fn i64_token(s: Seq<char>) -> Option<int> {
    match int_token_val(s) {
        Some(v) => if i64::MIN <= v <= i64::MAX {
            Some(v)
        } else {
            None
        },
        None => None,
    }
}

pub proof fn lemma_digits_val_nonneg(s: Seq<char>)
    requires
        all_digits(s),
    ensures
        digits_val(s) >= 0,
    decreases s.len(),
{
    if s.len() > 0 {
        assert(forall|i: int|
            0 <= i < s.drop_last().len() ==> is_digit_char(#[trigger] s.drop_last()[i]));
        lemma_digits_val_nonneg(s.drop_last());
        assert(is_digit_char(s.last()));
    }
}

/// Splitting a digit string: the left part is scaled by ten to the
/// length of the right part.
pub proof fn lemma_digits_val_append(p: Seq<char>, r: Seq<char>)
    ensures
        digits_val(p + r) == digits_val(p) * pow10(r.len() as int) + digits_val(r),
    decreases r.len(),
{
    if r.len() == 0 {
        assert(p + r =~= p);
        assert(pow10(0) == 1);
    } else {
        assert((p + r).drop_last() =~= p + r.drop_last());
        assert((p + r).last() == r.last());
        lemma_digits_val_append(p, r.drop_last());
        let k = r.len() - 1;
        assert(pow10(k + 1) == 10 * pow10(k));
        assert((digits_val(p) * pow10(k) + digits_val(r.drop_last())) * 10 == digits_val(p) * (10
            * pow10(k)) + 10 * digits_val(r.drop_last())) by (nonlinear_arith);
    }
}

/// Parses the decimal integer grammar of `i64`: an optional sign and
/// one or more digits, `None` on stray characters or overflow.
#[verifier::loop_isolation(false)]
pub fn parse_i64(s: &str) -> (r: Option<i64>)
    ensures
        match i64_token(s@) {
            Some(v) => r matches Some(x) && x as int == v,
            None => r is None,
        },
{
    let n = s.unicode_len();
    if n == 0 {
        return None;
    }
    let c0 = s.get_char(0);
    let neg = c0 == '-';
    let has_sign = c0 == '-' || c0 == '+';
    let start: usize = if has_sign {
        1
    } else {
        0
    };
    if n - start == 0 {
        return None;
    }
    let ghost mag: Seq<char> = s@.subrange(start as int, n as int);
    assert(!has_sign ==> mag =~= s@);
    let limit: u64 = if neg {
        9223372036854775808
    } else {
        9223372036854775807
    };
    let mut acc: u64 = 0;
    let mut i = start;
    while i < n
        invariant
            start <= i <= n,
            all_digits(s@.subrange(start as int, i as int)),
            acc as int == digits_val(s@.subrange(start as int, i as int)),
            acc <= limit,
        decreases n - i,
    {
        let ghost seen = s@.subrange(start as int, i as int);
        let c = s.get_char(i);
        if !(c >= '0' && c <= '9') {
            assert(!is_digit_char(mag[i - start]));
            return None;
        }
        let d: u64 = (c as u8 - 48) as u64;
        assert(d <= 9);
        let cap = limit / 10;
        let rem = limit % 10;
        if acc > cap || (acc == cap && d > rem) {
            // The digits read so far already exceed the magnitude any
            // `i64` can hold, so whatever follows, the token is out of
            // range (or not a token at all).
            proof {
                let seen2 = seen.push(c);
                assert(seen2 =~= s@.subrange(start as int, i as int + 1));
                assert(digits_val(seen2) == digits_val(seen) * 10 + digit_val(c)) by {
                    assert(seen2.drop_last() =~= seen);
                };
                assert(digits_val(seen2) > limit) by (nonlinear_arith)
                    requires
                        digits_val(seen2) == digits_val(seen) * 10 + digit_val(c),
                        acc as int == digits_val(seen),
                        acc > cap || (acc == cap && digit_val(c) > rem),
                        cap == limit / 10,
                        rem == limit % 10,
                        0 <= digit_val(c) <= 9,
                ;
                if all_digits(mag) {
                    let rest = mag.subrange(i - start + 1, mag.len() as int);
                    assert(mag =~= seen2 + rest);
                    lemma_digits_val_append(seen2, rest);
                    lemma_digits_val_nonneg(rest);
                    lemma_pow10_pos(rest.len() as int);
                    assert(digits_val(seen2) * pow10(rest.len() as int) >= digits_val(seen2))
                        by (nonlinear_arith)
                        requires
                            digits_val(seen2) > 0,
                            pow10(rest.len() as int) >= 1,
                    ;
                    assert(digits_val(mag) > limit);
                }
            }
            return None;
        }
        proof {
            vstd::arithmetic::div_mod::lemma_fundamental_div_mod(limit as int, 10);
            assert(limit as int == 10 * (cap as int) + rem as int);
            assert(acc * 10 + d <= limit);
            let seen2 = seen.push(c);
            assert(seen2 =~= s@.subrange(start as int, i as int + 1));
            assert(seen2.drop_last() =~= seen);
        }
        acc = acc * 10 + d;
        i = i + 1;
    }
    assert(s@.subrange(start as int, i as int) =~= mag);
    if neg {
        if acc == 9223372036854775808 {
            Some(i64::MIN)
        } else {
            Some(0i64 - (acc as i64))
        }
    } else {
        Some(acc as i64)
    }
}

/// True when `s` equals `t` after ASCII-lowercasing `s`; callers pass
/// an already-lowercase `t`.
pub fn eq_ignore_ascii_case(s: &str, t: &str) -> (r: bool)
    ensures
        r == (lower_seq(s@) == t@),
{
    let n = s.unicode_len();
    let m = t.unicode_len();
    if n != m {
        assert(lower_seq(s@).len() == n);
        return false;
    }
    let mut i: usize = 0;
    while i < n
        invariant
            0 <= i <= n,
            n == s@.len() && n == t@.len(),
            forall|j: int| 0 <= j < i ==> lower_seq(s@)[j] == t@[j],
        decreases n - i,
    {
        let a = s.get_char(i);
        let b = t.get_char(i);
        let la: char = if a >= 'A' && a <= 'Z' {
            ((a as u8) + 32) as char
        } else {
            a
        };
        assert(la == lower_char(s@[i as int]));
        if la != b {
            assert(lower_seq(s@)[i as int] != t@[i as int]);
            return false;
        }
        i = i + 1;
    }
    assert(lower_seq(s@) =~= t@);
    true
}

/// The character for one decimal digit.
pub open spec fn digit_char(d: int) -> char {
    ((d + 48) as u8) as char
}

/// Most-significant-first decimal digits of `n` (just `"0"` for zero).
pub open spec fn dec_digits(n: int) -> Seq<char>
    decreases n,
{
    if n < 10 {
        seq![digit_char(n)]
    } else {
        dec_digits(n / 10).push(digit_char(n % 10))
    }
}

/// Decimal rendering of `v`, with a leading minus sign for negatives.
pub open spec fn int_str(v: int) -> Seq<char> {
    if v < 0 {
        seq!['-'] + dec_digits(-v)
    } else {
        dec_digits(v)
    }
}

fn digit_str(d: u64) -> (r: &'static str)
    requires
        d < 10,
    ensures
        r@ =~= seq![digit_char(d as int)],
{
    proof {
        reveal_strlit("0");
        reveal_strlit("1");
        reveal_strlit("2");
        reveal_strlit("3");
        reveal_strlit("4");
        reveal_strlit("5");
        reveal_strlit("6");
        reveal_strlit("7");
        reveal_strlit("8");
        reveal_strlit("9");
    }
    match d {
        0 => "0",
        1 => "1",
        2 => "2",
        3 => "3",
        4 => "4",
        5 => "5",
        6 => "6",
        7 => "7",
        8 => "8",
        _ => "9",
    }
}

/// Appends the decimal digits of `n` to `out`.
pub fn push_decimal(n: u64, out: &mut String)
    ensures
        final(out)@ == old(out)@ + dec_digits(n as int),
    decreases n,
{
    if n >= 10 {
        push_decimal(n / 10, out);
        let s = digit_str(n % 10);
        out.append(s);
        assert(final(out)@ =~= old(out)@ + dec_digits(n as int));
    } else {
        let s = digit_str(n);
        out.append(s);
        assert(final(out)@ =~= old(out)@ + dec_digits(n as int));
    }
}

/// Decimal rendering of an `i64` as a fresh string.
pub fn i64_to_string(v: i64) -> (r: String)
    ensures
        r@ == int_str(v as int),
{
    let mut out = String::new();
    if v < 0 {
        proof {
            reveal_strlit("-");
        }
        out.append("-");
        assert(out@ =~= seq!['-']);
        let mag: u64 = if v == i64::MIN {
            9223372036854775808
        } else {
            (0i64 - v) as u64
        };
        assert(mag as int == -(v as int));
        push_decimal(mag, &mut out);
    } else {
        push_decimal(v as u64, &mut out);
        assert(out@ =~= dec_digits(v as int));
    }
    out
}

} // verus!
