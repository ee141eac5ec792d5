//! Scalar foundation of the renderer: signed fixed-point numbers.
//!
//! Every coordinate, matrix entry and brightness value in this crate is a
//! fixed-point number: an `i64` holding the real value times [`SCALE`].
//! Multiplying or dividing two such numbers carries the intermediate product
//! at 128 bits and rounds once, toward zero; [`tdiv`] is the specification of
//! that rounding. [`sqrt_floor`] specifies the integer square root used for
//! vector magnitudes.

use vstd::prelude::*;

verus! {

use vstd::arithmetic::div_mod::lemma_div_by_multiple;
use vstd::arithmetic::div_mod::lemma_div_is_ordered;

/// One unit, in fixed-point representation: an `i64` holds the real value
/// times this factor (sixteen fractional bits).
pub const SCALE: i64 = 65536;

/// Quotient of `a` by `b`, rounded toward zero, as Rust's integer division
/// rounds. (The `/` of specifications is Euclidean division, which differs
/// on negative dividends.)
pub open spec fn tdiv(a: int, b: int) -> int {
    if a >= 0 {
        a / b
    } else {
        -((-a) / b)
    }
}

/// `x` fits in an `i64`.
pub open spec fn fits_i64(x: int) -> bool {
    i64::MIN <= x <= i64::MAX
}

/// `x` fits in an `i128`.
pub open spec fn fits_i128(x: int) -> bool {
    i128::MIN <= x <= i128::MAX
}

/// Magnitude of `x`.
pub open spec fn abs(x: int) -> int {
    if x >= 0 {
        x
    } else {
        -x
    }
}

/// The integer square root: the largest `r` with `r * r <= n`.
pub open spec fn sqrt_floor(n: nat) -> nat
    decreases n,
{
    if n == 0 {
        0
    } else {
        let r = sqrt_floor((n - 1) as nat);
        if (r + 1) * (r + 1) <= n {
            r + 1
        } else {
            r
        }
    }
}

/// `sqrt_floor(n)` squared is at most `n`, and the next square is above `n`.
pub proof fn lemma_sqrt_floor_bounds(n: nat)
    ensures
        sqrt_floor(n) * sqrt_floor(n) <= n,
        (sqrt_floor(n) + 1) * (sqrt_floor(n) + 1) > n,
    decreases n,
{
    if n == 0 {
        assert(sqrt_floor(0) == 0);
        assert((sqrt_floor(n) + 1) * (sqrt_floor(n) + 1) == 1) by (nonlinear_arith)
            requires
                sqrt_floor(n) == 0,
        ;
    } else {
        lemma_sqrt_floor_bounds((n - 1) as nat);
        let r = sqrt_floor((n - 1) as nat);
        assert(sqrt_floor(n) == if (r + 1) * (r + 1) <= n {
            r + 1
        } else {
            r as nat
        });
        if (r + 1) * (r + 1) <= n {
            assert(sqrt_floor(n) == r + 1);
            assert((r + 1) * (r + 1) > n - 1);
            assert((sqrt_floor(n) + 1) * (sqrt_floor(n) + 1) > n) by (nonlinear_arith)
                requires
                    sqrt_floor(n) == r + 1,
                    n <= (r + 1) * (r + 1),
            ;
        } else {
            assert(sqrt_floor(n) == r);
            assert(r * r <= n - 1 < n);
        }
    }
}

/// Any `r` whose square brackets `n` is the integer square root of `n`.
pub proof fn lemma_sqrt_floor_unique(n: nat, r: nat)
    requires
        r * r <= n,
        (r + 1) * (r + 1) > n,
    ensures
        r == sqrt_floor(n),
{
    let s = sqrt_floor(n);
    lemma_sqrt_floor_bounds(n);
    if r < s {
        assert((r + 1) * (r + 1) <= s * s) by (nonlinear_arith)
            requires
                r + 1 <= s,
        ;
    }
    if s < r {
        assert((s + 1) * (s + 1) <= r * r) by (nonlinear_arith)
            requires
                s + 1 <= r,
        ;
    }
}

/// The integer square root is monotonic.
pub proof fn lemma_sqrt_floor_is_ordered(a: nat, b: nat)
    requires
        a <= b,
    ensures
        sqrt_floor(a) <= sqrt_floor(b),
{
    lemma_sqrt_floor_bounds(a);
    lemma_sqrt_floor_bounds(b);
    let ra = sqrt_floor(a);
    let rb = sqrt_floor(b);
    if rb < ra {
        assert((rb + 1) * (rb + 1) <= ra * ra) by (nonlinear_arith)
            requires
                rb + 1 <= ra,
        ;
    }
}

/// Dividing a multiple of a positive `d` by `d` recovers the factor,
/// with rounding toward zero.
pub proof fn lemma_tdiv_mul_cancel(x: int, d: int)
    requires
        d > 0,
    ensures
        tdiv(x * d, d) == x,
{
    if x >= 0 {
        lemma_div_by_multiple(x, d);
    } else {
        lemma_div_by_multiple(-x, d);
        assert(-(x * d) == (-x) * d) by (nonlinear_arith);
    }
}

/// Rounding toward zero never grows the magnitude of a quotient.
pub proof fn lemma_tdiv_abs_le(p: int, c: int, d: int)
    requires
        d > 0,
        abs(p) <= c,
    ensures
        abs(tdiv(p, d)) <= c / d,
        abs(tdiv(p, d)) * d <= abs(p),
{
    let q = if p >= 0 { p } else { -p };
    lemma_div_is_ordered(q, c, d);
    assert(q / d >= 0) by (nonlinear_arith)
        requires
            q >= 0,
            d > 0,
    ;
    assert((q / d) * d <= q) by {
        vstd::arithmetic::div_mod::lemma_fundamental_div_mod(q, d);
        vstd::arithmetic::div_mod::lemma_remainder_lower(q, d);
    }
}

/// The product of two bounded factors is bounded by the product of the bounds.
pub proof fn lemma_abs_mul_le(a: int, b: int, ca: int, cb: int)
    ensures
        abs(a * b) == abs(a) * abs(b),
        abs(a) <= ca && abs(b) <= cb ==> abs(a * b) <= ca * cb,
{
    assert(abs(a * b) == abs(a) * abs(b)) by (nonlinear_arith);
    if abs(a) <= ca && abs(b) <= cb {
        assert(abs(a) * abs(b) <= ca * cb) by (nonlinear_arith)
            requires
                0 <= abs(a) <= ca,
                0 <= abs(b) <= cb,
        ;
    }
}

/// The integer square root of `n`, found by binary search on `r * r <= n`.
pub fn isqrt(x: u128) -> (r: u128)
    ensures
        r == sqrt_floor(x as nat),
        r * r <= x,
        (r + 1) * (r + 1) > x,
{
    let mut lo: u128 = 0;
    let mut hi: u128 = 0x1_0000_0000_0000_0000u128;
    assert((hi as int) * (hi as int) > x as int) by (nonlinear_arith)
        requires
            hi == 0x1_0000_0000_0000_0000u128,
            x <= 0xffff_ffff_ffff_ffff_ffff_ffff_ffff_ffffu128,
    ;
    while hi - lo > 1
        invariant
            lo < hi,
            hi <= 0x1_0000_0000_0000_0000u128,
            (lo as nat) * (lo as nat) <= x as nat,
            (hi as nat) * (hi as nat) > x as nat,
        decreases hi - lo,
    {
        let mid = lo + (hi - lo) / 2;
        assert(lo < mid < hi);
        assert((mid as int) * (mid as int) <= 0xffff_ffff_ffff_ffff_ffff_ffff_ffff_ffffu128)
            by (nonlinear_arith)
            requires
                mid < 0x1_0000_0000_0000_0000u128,
        ;
        if mid * mid <= x {
            lo = mid;
        } else {
            hi = mid;
        }
    }
    proof {
        lemma_sqrt_floor_unique(x as nat, lo as nat);
    }
    lo
}

} // verus!
