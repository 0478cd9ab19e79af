//! Integer arithmetic helpers for the rasterizers: truncating and flooring
//! division, integer square roots, and the lemmas that relate them.
//!
//! Spec-side division `/` on `int` is Euclidean; the rasterizers need
//! division that truncates toward zero (as hardware division does) and
//! division that rounds toward negative infinity, so both get explicit
//! definitions and executable forms proved against them.

use vstd::prelude::*;
use vstd::arithmetic::div_mod::lemma_div_is_ordered_by_denominator;
use vstd::arithmetic::div_mod::lemma_div_by_multiple;
use vstd::arithmetic::div_mod::lemma_fundamental_div_mod;

verus! {

/// The sign of `a`: -1, 0, or 1.
pub open spec fn sgn(a: int) -> int {
    if a > 0 {
        1
    } else if a < 0 {
        -1
    } else {
        0
    }
}

/// The absolute value of `a`.
pub open spec fn abs(a: int) -> int {
    if a >= 0 {
        a
    } else {
        -a
    }
}

/// `a / b` truncated toward zero, the way machine division rounds.
/// Defined as 0 for `b == 0` to stay total; every use divides by a nonzero
/// value.
pub open spec fn div_trunc(a: int, b: int) -> int {
    if b == 0 {
        0
    } else if (a >= 0) == (b >= 0) {
        abs(a) / abs(b)
    } else {
        -(abs(a) / abs(b))
    }
}

/// `a / b` rounded toward negative infinity; for `b > 0` this is spec-side
/// Euclidean division itself.
pub open spec fn div_floor(a: int, b: int) -> int {
    a / b
}

/// Truncating division, on `i128` operands away from the extreme values
/// whose negation would overflow.
pub fn div_trunc_i128(a: i128, b: i128) -> (q: i128)
    requires
        b != 0,
        a != i128::MIN,
        b != i128::MIN,
    ensures
        q == div_trunc(a as int, b as int),
{
    let am: u128 = if a >= 0 {
        a as u128
    } else {
        (-(a as i128)) as u128
    };
    let bm: u128 = if b >= 0 {
        b as u128
    } else {
        (-(b as i128)) as u128
    };
    let qm: u128 = am / bm;
    proof {
        assert(qm <= am) by {
            lemma_div_le_dividend(am as int, bm as int);
        }
    }
    if (a >= 0) == (b >= 0) {
        qm as i128
    } else {
        -(qm as i128)
    }
}

/// Quotients by a positive divisor never exceed a nonnegative dividend.
pub proof fn lemma_div_le_dividend(a: int, b: int)
    requires
        0 <= a,
        1 <= b,
    ensures
        0 <= a / b <= a,
{
    lemma_div_by_multiple(a, 1);
    if b > 1 {
        lemma_div_is_ordered_by_denominator(a, 1, b);
    }
    vstd::arithmetic::div_mod::lemma_div_pos_is_pos(a, b);
}

/// Flooring division by a positive divisor, on `i128` operands whose
/// magnitudes stay below `2^126`.
pub fn div_floor_i128(a: i128, b: i128) -> (q: i128)
    requires
        b > 0,
        -0x10000000000000000000000000000000 <= a <= 0x10000000000000000000000000000000,
    ensures
        q == div_floor(a as int, b as int),
{
    let bm: u128 = b as u128;
    if a >= 0 {
        let am: u128 = a as u128;
        let qm: u128 = am / bm;
        proof {
            lemma_div_le_dividend(am as int, bm as int);
        }
        qm as i128
    } else {
        let am: u128 = (-(a as i128)) as u128;
        let qm: u128 = am / bm;
        let rm: u128 = am % bm;
        proof {
            lemma_div_le_dividend(am as int, bm as int);
            lemma_neg_div_floor(am as int, bm as int);
        }
        if rm == 0 {
            -(qm as i128)
        } else {
            -(qm as i128) - 1
        }
    }
}

/// Euclidean division of a negated dividend: `(-a) / b` is `-(a / b)` when
/// `b` divides `a`, and `-(a / b) - 1` otherwise.
proof fn lemma_neg_div_floor(a: int, b: int)
    requires
        0 <= a,
        1 <= b,
    ensures
        a % b == 0 ==> (-a) / b == -(a / b),
        a % b != 0 ==> (-a) / b == -(a / b) - 1,
{
    let q = a / b;
    let r = a % b;
    lemma_fundamental_div_mod(a, b);
    assert(a == q * b + r);
    if r == 0 {
        assert((-a) == (-q) * b) by (nonlinear_arith)
            requires
                a == q * b,
        ;
        assert((-a) / b == -q) by {
            vstd::arithmetic::div_mod::lemma_div_multiples_vanish(-q, b);
            assert((-a) == b * (-q)) by (nonlinear_arith)
                requires
                    a == q * b,
            ;
        }
    } else {
        assert((-a) == (-q - 1) * b + (b - r)) by (nonlinear_arith)
            requires
                a == q * b + r,
        ;
        assert((-a) / b == -q - 1) by {
            vstd::arithmetic::div_mod::lemma_fundamental_div_mod_converse(
                -a,
                b,
                -q - 1,
                b - r,
            );
        }
    }
}

/// Flooring division by a positive divisor moves its operand toward zero
/// and never past it.
pub proof fn lemma_div_bounds(a: int, b: int)
    requires
        b >= 1,
    ensures
        a >= 0 ==> 0 <= a / b <= a,
        a < 0 ==> a <= a / b <= 0,
{
    if a >= 0 {
        lemma_div_le_dividend(a, b);
    } else {
        lemma_fundamental_div_mod(a, b);
        vstd::arithmetic::div_mod::lemma_mod_division_less_than_divisor(a, b);
        assert(a <= a / b <= 0) by (nonlinear_arith)
            requires
                a < 0,
                b >= 1,
                a == b * (a / b) + a % b,
                0 <= a % b < b,
        ;
    }
}

/// `v` held to the range of 64-bit signed integers.
pub open spec fn sat64(v: int) -> int {
    if v < -0x8000000000000000 {
        -0x8000000000000000
    } else if v > 0x7fffffffffffffff {
        0x7fffffffffffffff
    } else {
        v
    }
}

/// Saturating narrowing from `i128` to `i64`.
pub fn sat_i128_to_i64(v: i128) -> (r: i64)
    ensures
        r == sat64(v as int),
{
    if v < -0x8000000000000000 {
        -0x8000000000000000
    } else if v > 0x7fffffffffffffff {
        0x7fffffffffffffff
    } else {
        v as i64
    }
}

/// The floor of the square root of `n` (0 for negative `n`).
pub open spec fn sqrt_floor(n: int) -> int
    decreases n,
{
    if n <= 0 {
        0
    } else {
        let r = sqrt_floor(n - 1);
        if (r + 1) * (r + 1) <= n {
            r + 1
        } else {
            r
        }
    }
}

/// `sqrt_floor(n)` is the unique integer whose square is at most `n` while
/// the next square is beyond it.
pub proof fn lemma_sqrt_floor_bounds(n: int)
    requires
        0 <= n,
    ensures
        0 <= sqrt_floor(n),
        sqrt_floor(n) * sqrt_floor(n) <= n,
        n < (sqrt_floor(n) + 1) * (sqrt_floor(n) + 1),
    decreases n,
{
    if n == 0 {
        assert(sqrt_floor(0) == 0);
    } else {
        lemma_sqrt_floor_bounds(n - 1);
        let r = sqrt_floor(n - 1);
        if (r + 1) * (r + 1) <= n {
            assert(sqrt_floor(n) == r + 1);
            assert(n < (r + 2) * (r + 2)) by (nonlinear_arith)
                requires
                    n - 1 < (r + 1) * (r + 1),
                    0 <= r,
            ;
        } else {
            assert(sqrt_floor(n) == r);
        }
    }
}

/// Any integer bracketed by the same pair of consecutive squares as `n` is
/// `sqrt_floor(n)`.
pub proof fn lemma_sqrt_floor_unique(n: int, s: int)
    requires
        0 <= n,
        0 <= s,
        s * s <= n,
        n < (s + 1) * (s + 1),
    ensures
        s == sqrt_floor(n),
{
    let r = sqrt_floor(n);
    lemma_sqrt_floor_bounds(n);
    assert(s <= r) by (nonlinear_arith)
        requires
            0 <= s,
            0 <= r,
            s * s <= n,
            n < (r + 1) * (r + 1),
    ;
    assert(r <= s) by (nonlinear_arith)
        requires
            0 <= s,
            0 <= r,
            r * r <= n,
            n < (s + 1) * (s + 1),
    ;
}

/// The integer square root of `n`, by bisection.
pub fn isqrt(n: u128) -> (r: u64)
    ensures
        r == sqrt_floor(n as int),
{
    let mut lo: u64 = 0;
    let mut hi: u64 = if n < 0x10000000000000000 {
        n as u64
    } else {
        0xFFFFFFFFFFFFFFFF
    };
    proof {
        if n < 0x10000000000000000 {
            assert((n + 1) * (n + 1) > n) by (nonlinear_arith)
                requires
                    n >= 0,
            ;
        } else {
            assert((0xFFFFFFFFFFFFFFFFu64 + 1) * (0xFFFFFFFFFFFFFFFFu64 + 1) > n) by (
            nonlinear_arith)
                requires
                    n <= 0xFFFFFFFFFFFFFFFFFFFFFFFFFFFFFFFFu128,
            ;
        }
    }
    while lo < hi
        invariant
            0 <= lo <= hi,
            lo * lo <= n,
            n < (hi + 1) * (hi + 1),
        decreases hi - lo,
    {
        let d: u64 = hi - lo;
        let mid: u64 = lo + d / 2 + d % 2;
        proof {
            assert(mid * mid < 0x100000000000000000000000000000000) by (nonlinear_arith)
                requires
                    0 <= mid <= 0xFFFFFFFFFFFFFFFFu64,
            ;
        }
        let sq: u128 = (mid as u128) * (mid as u128);
        if sq <= n {
            lo = mid;
        } else {
            hi = mid - 1;
        }
    }
    proof {
        lemma_sqrt_floor_unique(n as int, lo as int);
    }
    lo
}

} // verus!
