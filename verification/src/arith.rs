//! Decimal arithmetic used throughout the card model: powers of ten and
//! the digit count of an integer, with the facts the other modules need.

use vstd::prelude::*;

verus! {

/// `10^k` as a mathematical integer (`1` for `k <= 0`).
pub open spec fn pow10(k: int) -> int
    decreases k,
{
    if k <= 0 {
        1
    } else {
        10 * pow10(k - 1)
    }
}

/// Number of decimal digits of `n`, and `0` for any `n <= 0`.
pub open spec fn digits(n: int) -> int
    decreases n,
{
    if n <= 0 {
        0
    } else {
        1 + digits(n / 10)
    }
}

pub proof fn lemma_pow10_18()
    ensures
        pow10(18) == 1000000000000000000,
{
    reveal_with_fuel(pow10, 19);
}

pub proof fn lemma_pow10_19()
    ensures
        pow10(19) == 10000000000000000000,
{
    reveal_with_fuel(pow10, 20);
}

pub proof fn lemma_digits_nonneg(n: int)
    ensures
        digits(n) >= 0,
    decreases n,
{
    if n > 0 {
        lemma_digits_nonneg(n / 10);
    }
}

pub proof fn lemma_pow10_pos(k: int)
    ensures
        pow10(k) >= 1,
    decreases k,
{
    if k > 0 {
        lemma_pow10_pos(k - 1);
    }
}

pub proof fn lemma_pow10_adds(a: int, b: int)
    requires
        a >= 0,
        b >= 0,
    ensures
        pow10(a + b) == pow10(a) * pow10(b),
    decreases a,
{
    if a == 0 {
    } else {
        lemma_pow10_adds(a - 1, b);
        assert(10 * (pow10(a - 1) * pow10(b)) == (10 * pow10(a - 1)) * pow10(b))
            by (nonlinear_arith);
    }
}

pub proof fn lemma_pow10_increases(a: int, b: int)
    requires
        0 <= a < b,
    ensures
        pow10(a) < pow10(b),
    decreases b,
{
    lemma_pow10_pos(a);
    if a == b - 1 {
    } else {
        lemma_pow10_increases(a, b - 1);
    }
}

pub proof fn lemma_pow10_monotone(a: int, b: int)
    requires
        a <= b,
    ensures
        pow10(a) <= pow10(b),
{
    if a < 0 {
        lemma_pow10_pos(b);
    } else if a < b {
        lemma_pow10_increases(a, b);
    }
}

/// A positive integer lies between the powers of ten that its digit
/// count names.
pub proof fn lemma_digits_bounds(n: int)
    requires
        n >= 1,
    ensures
        digits(n) >= 1,
        pow10(digits(n) - 1) <= n < pow10(digits(n)),
    decreases n,
{
    if n <= 9 {
        assert(n / 10 == 0) by (nonlinear_arith)
            requires
                1 <= n <= 9,
        ;
        assert(digits(0) == 0);
        assert(digits(n) == 1);
        assert(pow10(0) == 1);
        assert(pow10(1) == 10);
    } else {
        assert(1 <= n / 10 < n) by (nonlinear_arith)
            requires
                n >= 10,
        ;
        lemma_digits_bounds(n / 10);
        let d = digits(n / 10);
        assert(pow10(d) == 10 * pow10(d - 1));
        assert(pow10(d + 1) == 10 * pow10(d));
        assert(pow10(d) <= n < pow10(d + 1)) by (nonlinear_arith)
            requires
                n >= 10,
                pow10(d - 1) <= n / 10 < pow10(d),
                pow10(d) == 10 * pow10(d - 1),
                pow10(d + 1) == 10 * pow10(d),
        ;
        assert(digits(n) == d + 1);
    }
}

/// The digit count is determined by the enclosing pair of powers of ten.
pub proof fn lemma_digits_of_range(n: int, k: int)
    requires
        k >= 1,
        pow10(k - 1) <= n < pow10(k),
    ensures
        digits(n) == k,
{
    lemma_pow10_pos(k - 1);
    lemma_digits_bounds(n);
    let d = digits(n);
    if d < k {
        lemma_pow10_monotone(d, k - 1);
        assert(false);
    }
    if d > k {
        lemma_pow10_monotone(k, d - 1);
        assert(false);
    }
}

pub proof fn lemma_digits_le(n: int, k: int)
    requires
        k >= 0,
        0 <= n < pow10(k),
    ensures
        digits(n) <= k,
{
    if n >= 1 {
        lemma_digits_bounds(n);
        if digits(n) > k {
            lemma_pow10_monotone(k, digits(n) - 1);
            assert(false);
        }
    }
}

} // verus!
