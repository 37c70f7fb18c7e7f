use vstd::prelude::*;
use vstd::arithmetic::div_mod::lemma_div_is_ordered;
use vstd::arithmetic::div_mod::lemma_div_multiples_vanish;
use vstd::arithmetic::div_mod::lemma_div_pos_is_pos;

verus! {

/// Fixed-point scale: one unit is stored as `SCALE`, so a component such as
/// 0.707 is stored as 707. All noise values and vector components in this
/// crate are integers at this scale.
pub const SCALE: i64 = 1000;

/// Truncating integer division (rounding toward zero), the rounding that `/`
/// performs on Rust's signed integers, stated over mathematical integers.
pub open spec fn tdiv(n: int, d: int) -> int
    recommends
        d > 0,
{
    if n >= 0 {
        n / d
    } else {
        -((-n) / d)
    }
}

/// The cubic ease curve `t*t*(3 - 2*t)` for fixed-point `t`, with argument
/// and result both at scale `SCALE`.
pub open spec fn smoothstep_spec(t: int) -> int {
    (t * t * (3 * SCALE - 2 * t)) / ((SCALE * SCALE) as int)
}

/// Smoothstep weight used by the interpolation kernel: `0` maps to `0`,
/// `SCALE` maps to `SCALE`, and the curve is monotone in between.
pub fn smoothstep(t: i64) -> (r: i64)
    requires
        0 <= t <= SCALE,
    ensures
        r == smoothstep_spec(t as int),
        0 <= r <= SCALE,
{
    proof {
        lemma_smoothstep_num_bounds(t as int);
        assert(0 <= t * t <= SCALE * SCALE) by (nonlinear_arith)
            requires
                0 <= t <= SCALE,
        ;
    }
    let num: i64 = t * t * (3 * SCALE - 2 * t);
    proof {
        lemma_div_is_ordered(num as int, (SCALE * SCALE * SCALE) as int, (SCALE * SCALE) as int);
    }
    num / (SCALE * SCALE)
}

/// The numerator of `smoothstep_spec` stays within `[0, SCALE^3]` for
/// arguments in `[0, SCALE]`.
proof fn lemma_smoothstep_num_bounds(t: int)
    requires
        0 <= t <= SCALE,
    ensures
        0 <= t * t * (3 * SCALE - 2 * t),
        t * t * (3 * SCALE - 2 * t) <= SCALE * SCALE * SCALE,
{
    assert(0 <= t * t * (3 * SCALE - 2 * t)) by (nonlinear_arith)
        requires
            0 <= t <= SCALE,
    ;
    // SCALE^3 - t^2 (3 SCALE - 2 t) == (SCALE - t)^2 (SCALE + 2 t) >= 0
    assert(t * t * (3 * SCALE - 2 * t) <= SCALE * SCALE * SCALE) by (nonlinear_arith)
        requires
            0 <= t <= SCALE,
    ;
}

/// The smoothstep weight never decreases as its argument grows: the noise
/// kernel's interpolation weights are ordered like the fractional offsets
/// they come from.
pub proof fn lemma_smoothstep_monotonic(a: int, b: int)
    requires
        0 <= a <= b <= SCALE,
    ensures
        smoothstep_spec(a) <= smoothstep_spec(b),
{
    assert(a * a * (3 * SCALE - 2 * a) <= b * b * (3 * SCALE - 2 * b)) by (nonlinear_arith)
        requires
            0 <= a <= b <= SCALE,
    ;
    lemma_smoothstep_num_bounds(a);
    lemma_div_is_ordered(
        a * a * (3 * SCALE - 2 * a),
        b * b * (3 * SCALE - 2 * b),
        (SCALE * SCALE) as int,
    );
}

/// Smoothstep-weighted linear interpolation from `a` to `b`, all three
/// arguments fixed-point at scale `SCALE`.
pub open spec fn lerp_spec(a: int, b: int, t: int) -> int {
    a + tdiv(smoothstep_spec(t) * (b - a), SCALE as int)
}

/// Interpolates between two fixed-point values with a smoothstep weight;
/// the result lies between the two endpoints.
pub fn smooth_interpolation(a: i64, b: i64, t: i64) -> (r: i64)
    requires
        0 <= t <= SCALE,
        -2 * SCALE <= a <= 2 * SCALE,
        -2 * SCALE <= b <= 2 * SCALE,
    ensures
        r == lerp_spec(a as int, b as int, t as int),
        a <= b ==> a <= r <= b,
        b <= a ==> b <= r <= a,
{
    let w: i64 = smoothstep(t);
    proof {
        lemma_weighted_diff_bounds(a as int, b as int, w as int);
        assert(-4 * SCALE * SCALE <= w * (b - a) <= 4 * SCALE * SCALE) by (nonlinear_arith)
            requires
                0 <= w <= SCALE,
                -2 * SCALE <= a <= 2 * SCALE,
                -2 * SCALE <= b <= 2 * SCALE,
        ;
    }
    a + (w * (b - a)) / SCALE
}

/// For a weight `w` in `[0, SCALE]`, the truncated contribution
/// `w * (b - a) / SCALE` never overshoots the interval between `a` and `b`.
proof fn lemma_weighted_diff_bounds(a: int, b: int, w: int)
    requires
        0 <= w <= SCALE,
    ensures
        a <= b ==> 0 <= tdiv(w * (b - a), SCALE as int) <= b - a,
        b <= a ==> -(a - b) <= tdiv(w * (b - a), SCALE as int) <= 0,
{
    let s: int = SCALE as int;
    if a <= b {
        let d: int = b - a;
        assert(0 <= w * d && w * d <= s * d) by (nonlinear_arith)
            requires
                0 <= w <= s,
                0 <= d,
        ;
        lemma_div_is_ordered(w * d, s * d, s);
        lemma_div_multiples_vanish(d, s);
    } else {
        let d: int = a - b;
        assert(0 <= w * d && w * d <= s * d) by (nonlinear_arith)
            requires
                0 <= w <= s,
                0 <= d,
        ;
        assert(w * (b - a) == -(w * d)) by (nonlinear_arith)
            requires
                d == a - b,
        ;
        lemma_div_is_ordered(w * d, s * d, s);
        lemma_div_multiples_vanish(d, s);
    }
}

/// Truncating division by a positive divisor never goes below `-b` when the
/// numerator stays at or above `-(b * d)`.
pub proof fn lemma_tdiv_lower(n: int, d: int, b: int)
    requires
        d >= 1,
        b >= 0,
        -(b * d) <= n,
    ensures
        -b <= tdiv(n, d),
{
    if n < 0 {
        assert(-n <= b * d);
        lemma_div_is_ordered(-n, b * d, d);
        assert(b * d == d * b) by (nonlinear_arith);
        lemma_div_multiples_vanish(b, d);
    } else {
        lemma_div_pos_is_pos(n, d);
    }
}

/// Truncating division by a positive divisor never exceeds `b` when the
/// numerator stays at or below `b * d`.
pub proof fn lemma_tdiv_upper(n: int, d: int, b: int)
    requires
        d >= 1,
        b >= 0,
        n <= b * d,
    ensures
        tdiv(n, d) <= b,
{
    if n >= 0 {
        lemma_div_is_ordered(n, b * d, d);
        assert(b * d == d * b) by (nonlinear_arith);
        lemma_div_multiples_vanish(b, d);
    } else {
        lemma_div_pos_is_pos(-n, d);
    }
}

/// Truncating division keeps the numerator's sign (or yields zero).
pub proof fn lemma_tdiv_sign(n: int, d: int)
    requires
        d >= 1,
    ensures
        n >= 0 ==> tdiv(n, d) >= 0,
        n <= 0 ==> tdiv(n, d) <= 0,
{
    if n >= 0 {
        lemma_div_pos_is_pos(n, d);
    } else {
        lemma_div_pos_is_pos(-n, d);
    }
}

/// Truncating division in terms of magnitudes: the quotient's magnitude
/// times the divisor never exceeds the numerator's magnitude, and one more
/// divisor-multiple strictly exceeds it.
pub proof fn lemma_tdiv_magnitude(a: int, b: int)
    requires
        b >= 1,
    ensures
        vstd::math::abs(tdiv(a, b)) * b <= vstd::math::abs(a),
        vstd::math::abs(a) < (vstd::math::abs(tdiv(a, b)) + 1) * b,
{
    if a >= 0 {
        let q = a / b;
        lemma_div_pos_is_pos(a, b);
        vstd::arithmetic::div_mod::lemma_fundamental_div_mod(a, b);
        assert(q * b <= a && a < (q + 1) * b) by (nonlinear_arith)
            requires
                a == b * q + a % b,
                0 <= a % b < b,
        ;
    } else {
        let q = (-a) / b;
        lemma_div_pos_is_pos(-a, b);
        vstd::arithmetic::div_mod::lemma_fundamental_div_mod(-a, b);
        assert(q * b <= -a && -a < (q + 1) * b) by (nonlinear_arith)
            requires
                -a == b * q + (-a) % b,
                0 <= (-a) % b < b,
        ;
    }
}

/// Two-sided form of the truncating-division bounds.
pub proof fn lemma_tdiv_bound(n: int, d: int, b: int)
    requires
        d >= 1,
        b >= 0,
        -(b * d) <= n <= b * d,
    ensures
        -b <= tdiv(n, d) <= b,
{
    lemma_tdiv_lower(n, d, b);
    lemma_tdiv_upper(n, d, b);
}

/// Integer square root by descent: the largest `r` with `r * r <= n`.
pub open spec fn sqrt_floor(n: nat) -> nat
    decreases n,
{
    if n == 0 {
        0
    } else {
        let p = sqrt_floor((n - 1) as nat);
        if (p + 1) * (p + 1) <= n {
            p + 1
        } else {
            p
        }
    }
}

/// `sqrt_floor(n)` is the unique integer whose square is at most `n` while
/// the next square is above `n`.
pub proof fn lemma_sqrt_floor_bounds(n: nat)
    ensures
        sqrt_floor(n) * sqrt_floor(n) <= n,
        n < (sqrt_floor(n) + 1) * (sqrt_floor(n) + 1),
    decreases n,
{
    if n > 0 {
        lemma_sqrt_floor_bounds((n - 1) as nat);
        let p = sqrt_floor((n - 1) as nat);
        if (p + 1) * (p + 1) <= n {
            assert(sqrt_floor(n) == p + 1);
            assert(n - 1 < (p + 1) * (p + 1));
            assert(n < (p + 2) * (p + 2)) by (nonlinear_arith)
                requires
                    n <= (p + 1) * (p + 1),
                    p >= 0,
            ;
            assert(n < (sqrt_floor(n) + 1) * (sqrt_floor(n) + 1)) by (nonlinear_arith)
                requires
                    n < (p + 2) * (p + 2),
                    sqrt_floor(n) == p + 1,
            ;
        } else {
            assert(sqrt_floor(n) == p);
            assert(p * p <= n - 1);
        }
    } else {
        assert(sqrt_floor(n) == 0);
        assert(n < (sqrt_floor(n) + 1) * (sqrt_floor(n) + 1)) by (nonlinear_arith)
            requires
                n == 0,
                sqrt_floor(n) == 0,
        ;
    }
}

/// Any integer that sits between the same pair of adjacent squares as
/// `sqrt_floor(n)` is `sqrt_floor(n)`.
pub proof fn lemma_sqrt_floor_unique(n: nat, r: nat)
    requires
        r * r <= n,
        n < (r + 1) * (r + 1),
    ensures
        r == sqrt_floor(n),
{
    lemma_sqrt_floor_bounds(n);
    let s = sqrt_floor(n);
    assert(r == s) by (nonlinear_arith)
        requires
            r * r <= n,
            n < (r + 1) * (r + 1),
            s * s <= n,
            n < (s + 1) * (s + 1),
            r >= 0,
            s >= 0,
    ;
}

/// Computes the integer square root by binary search.
pub fn isqrt(n: u64) -> (r: u64)
    ensures
        r == sqrt_floor(n as nat),
        r * r <= n,
        n < (r + 1) * (r + 1),
{
    let mut lo: u64 = 0;
    let mut hi: u64 = 4294967296;
    while lo + 1 < hi
        invariant
            lo < hi <= 4294967296,
            lo * lo <= n,
            (n as int) < (hi as int) * (hi as int),
        decreases hi - lo,
    {
        let mid: u64 = lo + (hi - lo) / 2;
        proof {
            assert(mid * mid < 4294967296 * 4294967296) by (nonlinear_arith)
                requires
                    0 <= mid < 4294967296,
            ;
        }
        if mid * mid <= n {
            lo = mid;
        } else {
            hi = mid;
        }
    }
    proof {
        lemma_sqrt_floor_unique(n as nat, lo as nat);
    }
    lo
}

} // verus!
