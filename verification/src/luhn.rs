//! The Luhn checksum exactly as this library applies it: the digits of
//! the number are first reversed into a most-significant-first integer,
//! the alternating doubling then walks that reversed integer from its
//! low end, and the alternation parity is flipped when the reversed
//! integer ends in a `3` whose next digit is `4` or `7` (an embedded
//! American-Express-style prefix at that position).

use vstd::prelude::*;
use crate::arith::{pow10, digits, lemma_digits_le, lemma_pow10_pos};

verus! {

/// The decimal reversal of `n` folded into `acc`; `reversed(n)` is the
/// digit-reversed value of `n` (trailing zeros of `n` vanish).
pub open spec fn rev_digits(n: int, acc: int) -> int
    decreases n,
{
    if n <= 0 {
        acc
    } else {
        rev_digits(n / 10, acc * 10 + n % 10)
    }
}

pub open spec fn reversed(n: int) -> int {
    rev_digits(n, 0)
}

/// What one digit adds to the checksum: itself on plain positions,
/// twice itself with the excess over nine folded back on doubled ones.
pub open spec fn digit_contrib(d: int, doubled: bool) -> int {
    if doubled {
        if 2 * d > 9 {
            2 * d - 9
        } else {
            2 * d
        }
    } else {
        d
    }
}

/// Alternating digit sum of `n`, read from its low end, where `doubled`
/// says whether the lowest digit sits on a doubled position.
pub open spec fn luhn_sum(n: int, doubled: bool) -> int
    decreases n,
{
    if n <= 0 {
        0
    } else {
        digit_contrib(n % 10, doubled) + luhn_sum(n / 10, !doubled)
    }
}

/// Whether the walk over the reversed integer `r` starts on a doubled
/// position: it does, unless `r` ends in `3` with `4` or `7` just above.
pub open spec fn starts_doubled(r: int) -> bool {
    !(r % 10 == 3 && ((r / 10) % 10 == 4 || (r / 10) % 10 == 7))
}

/// The checksum accepts `n` when the alternating sum over the reversed
/// integer is divisible by ten.
pub open spec fn luhn_valid(n: int) -> bool {
    luhn_sum(reversed(n), starts_doubled(reversed(n))) % 10 == 0
}

pub proof fn lemma_rev_digits_ge_acc(n: int, acc: int)
    requires
        acc >= 0,
    ensures
        rev_digits(n, acc) >= acc,
    decreases n,
{
    if n > 0 {
        lemma_rev_digits_ge_acc(n / 10, acc * 10 + n % 10);
    }
}

/// The reversal of `n` never has more digits than `n` itself: folded
/// into `acc`, it stays under `(acc + 1) * 10^digits(n)`.
pub proof fn lemma_rev_digits_bound(n: int, acc: int)
    requires
        n >= 0,
        acc >= 0,
    ensures
        rev_digits(n, acc) < (acc + 1) * pow10(digits(n)),
    decreases n,
{
    if n <= 0 {
        assert(pow10(0) == 1);
    } else {
        let d = n % 10;
        let acc2 = acc * 10 + d;
        assert(1 <= n / 10 + 1 <= n);
        lemma_rev_digits_bound(n / 10, acc2);
        let dd = digits(n / 10);
        crate::arith::lemma_digits_nonneg(n / 10);
        assert(pow10(dd + 1) == 10 * pow10(dd));
        lemma_pow10_pos(dd);
        assert((acc2 + 1) * pow10(dd) <= (acc + 1) * (10 * pow10(dd))) by (nonlinear_arith)
            requires
                acc2 + 1 <= (acc + 1) * 10,
                pow10(dd) >= 1,
        ;
        assert(digits(n) == dd + 1);
    }
}

/// Each digit contributes between zero and nine, so the alternating sum
/// of `n` lies between zero and nine times the digit count of `n`.
pub proof fn lemma_luhn_sum_bounds(n: int, doubled: bool)
    requires
        n >= 0,
    ensures
        0 <= luhn_sum(n, doubled) <= 9 * digits(n),
    decreases n,
{
    if n > 0 {
        lemma_luhn_sum_bounds(n / 10, !doubled);
    }
}

/// Standalone Luhn validator on a plain number, the exact mirror of
/// `luhn_valid`. Any `n <= 0` reverses to zero and is accepted.
pub fn luhn_check(n: i64) -> (r: bool)
    requires
        reversed(n as int) <= i64::MAX,
    ensures
        r == luhn_valid(n as int),
{
    let mut num: i64 = n;
    let mut temp_num: i64 = 0;
    while num > 0
        invariant
            0 <= temp_num,
            rev_digits(n as int, 0) == rev_digits(num as int, temp_num as int),
            reversed(n as int) <= i64::MAX,
        decreases num,
    {
        proof {
            lemma_rev_digits_ge_acc(num as int / 10, temp_num as int * 10 + num as int % 10);
        }
        temp_num = temp_num * 10 + num % 10;
        num = num / 10;
    }
    assert(temp_num as int == reversed(n as int));
    let mut first = true;
    if temp_num % 10 == 3 {
        if (temp_num / 10) % 10 == 4 || (temp_num / 10) % 10 == 7 {
            first = false;
        }
    }
    assert(first == starts_doubled(temp_num as int));
    let ghost t0: int = temp_num as int;
    let ghost f0: bool = first;
    proof {
        lemma_luhn_sum_bounds(t0, f0);
        crate::arith::lemma_pow10_19();
        lemma_digits_le(t0, 19);
    }
    num = temp_num;
    let mut new_num: i64 = 0;
    while num > 0
        invariant
            0 <= num,
            0 <= new_num,
            new_num + luhn_sum(num as int, first) == luhn_sum(t0, f0),
            luhn_sum(t0, f0) <= 171,
        decreases num,
    {
        proof {
            lemma_luhn_sum_bounds(num as int / 10, !first);
        }
        let mut add_num: i64 = num % 10;
        num = num / 10;
        if first {
            add_num = add_num * 2;
            if add_num > 9 {
                add_num = add_num / 10 + add_num % 10;
            }
        }
        first = !first;
        new_num = new_num + add_num;
    }
    new_num % 10 == 0
}

} // verus!
