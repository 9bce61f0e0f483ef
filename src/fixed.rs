//! Fixed-point primitives: easing curves, interpolation and integer roots.
use vstd::prelude::*;

verus! {

/// One whole in the fixed-point fraction scale (millionths).
pub const UNIT: i64 = 1_000_000;

/// Microseconds per second.
pub const TICKS_PER_SECOND: i64 = 1_000_000;

/// Subdivisions of one screen point or one pixel.
pub const SUBUNITS: i64 = 1000;

/// `q³ / UNIT²`, the cube of a fraction.
pub open spec fn cube_frac(q: int) -> int {
    q * q * q / (UNIT as int * UNIT as int)
}

/// Ease-in cubic: `p³`.
pub open spec fn ease_in_spec(p: int) -> int {
    cube_frac(p)
}

/// Ease-out cubic: `1 − (1 − p)³`.
pub open spec fn ease_out_spec(p: int) -> int {
    UNIT - cube_frac(UNIT - p)
}

/// Ease-in-out cubic: `4p³` below one half, `1 − (2 − 2p)³ / 2` above.
pub open spec fn ease_in_out_spec(p: int) -> int {
    if 2 * p < UNIT {
        4 * (p * p * p) / (UNIT as int * UNIT as int)
    } else {
        UNIT - cube_frac(2 * UNIT - 2 * p) / 2
    }
}

/// Linear interpolation from `a` to `b` by the fraction `e`, rounded toward `a`.
pub open spec fn lerp_spec(a: int, b: int, e: int) -> int {
    if b >= a {
        a + (b - a) * e / (UNIT as int)
    } else {
        a - (a - b) * e / (UNIT as int)
    }
}

pub proof fn lemma_cube_frac_bounds(q: int)
    requires
        0 <= q <= UNIT,
    ensures
        0 <= q * q * q <= UNIT as int * UNIT as int * UNIT as int,
        0 <= cube_frac(q) <= UNIT,
{
    let u = UNIT as int;
    assert(0 <= q * q * q <= u * u * u) by (nonlinear_arith)
        requires
            0 <= q <= u,
    ;
    assert(u * u * u / (u * u) == u) by (nonlinear_arith)
        requires
            u == 1_000_000,
    ;
    vstd::arithmetic::div_mod::lemma_div_is_ordered(q * q * q, u * u * u, u * u);
    vstd::arithmetic::div_mod::lemma_div_pos_is_pos(q * q * q, u * u);
}

pub proof fn lemma_cube_frac_monotonic(q1: int, q2: int)
    requires
        0 <= q1 <= q2 <= UNIT,
    ensures
        cube_frac(q1) <= cube_frac(q2),
{
    assert(q1 * q1 * q1 <= q2 * q2 * q2) by (nonlinear_arith)
        requires
            0 <= q1 <= q2,
    ;
    vstd::arithmetic::div_mod::lemma_div_is_ordered(
        q1 * q1 * q1,
        q2 * q2 * q2,
        UNIT as int * UNIT as int,
    );
}

pub proof fn lemma_ease_bounds(p: int)
    requires
        0 <= p <= UNIT,
    ensures
        0 <= ease_in_spec(p) <= UNIT,
        0 <= ease_out_spec(p) <= UNIT,
        0 <= ease_in_out_spec(p) <= UNIT,
{
    lemma_cube_frac_bounds(p);
    lemma_cube_frac_bounds(UNIT - p);
    if 2 * p < UNIT {
        let u = UNIT as int;
        assert(0 <= 4 * (p * p * p) <= u * u * u) by (nonlinear_arith)
            requires
                0 <= 2 * p <= u,
        ;
        assert(u * u * u / (u * u) == u) by (nonlinear_arith)
            requires
                u == 1_000_000,
        ;
        vstd::arithmetic::div_mod::lemma_div_is_ordered(4 * (p * p * p), u * u * u, u * u);
        vstd::arithmetic::div_mod::lemma_div_pos_is_pos(4 * (p * p * p), u * u);
    } else {
        lemma_cube_frac_bounds(2 * UNIT - 2 * p);
    }
}

/// The ease-out curve never decreases.
pub proof fn lemma_ease_out_monotonic(p1: int, p2: int)
    requires
        0 <= p1 <= p2 <= UNIT,
    ensures
        ease_out_spec(p1) <= ease_out_spec(p2),
{
    lemma_cube_frac_monotonic(UNIT - p2, UNIT - p1);
}

/// `q³ / UNIT²` for a fraction `q`.
pub fn cube_fraction(q: i64) -> (r: i64)
    requires
        0 <= q <= UNIT,
    ensures
        r == cube_frac(q as int),
        0 <= r <= UNIT,
{
    proof {
        lemma_cube_frac_bounds(q as int);
        assert(q * q <= UNIT * UNIT) by (nonlinear_arith)
            requires
                0 <= q <= UNIT,
        ;
    }
    q * q * q / (UNIT * UNIT)
}

/// Ease-in cubic: starts slow, ends fast.
pub fn ease_in_cubic(p: i64) -> (r: i64)
    requires
        0 <= p <= UNIT,
    ensures
        r == ease_in_spec(p as int),
        0 <= r <= UNIT,
{
    cube_fraction(p)
}

/// Ease-out cubic: starts fast, ends slow.
pub fn ease_out_cubic(p: i64) -> (r: i64)
    requires
        0 <= p <= UNIT,
    ensures
        r == ease_out_spec(p as int),
        0 <= r <= UNIT,
{
    UNIT - cube_fraction(UNIT - p)
}

/// Ease-in-out cubic: slow start, fast middle, slow end.
pub fn ease_in_out_cubic(p: i64) -> (r: i64)
    requires
        0 <= p <= UNIT,
    ensures
        r == ease_in_out_spec(p as int),
        0 <= r <= UNIT,
{
    proof {
        lemma_ease_bounds(p as int);
    }
    if 2 * p < UNIT {
        proof {
            assert(p * p <= UNIT * UNIT) by (nonlinear_arith)
                requires
                    0 <= p <= UNIT,
            ;
            assert(0 <= 4 * (p * p * p) <= UNIT * UNIT * UNIT) by (nonlinear_arith)
                requires
                    0 <= 2 * p <= UNIT,
            ;
        }
        4 * (p * p * p) / (UNIT * UNIT)
    } else {
        UNIT - cube_fraction(2 * UNIT - 2 * p) / 2
    }
}

/// Linear interpolation from `a` to `b` by the fraction `e`.
pub fn lerp(a: i64, b: i64, e: i64) -> (r: i64)
    requires
        -4_000_000_000_000 <= a <= 4_000_000_000_000,
        -4_000_000_000_000 <= b <= 4_000_000_000_000,
        0 <= e <= UNIT,
    ensures
        r == lerp_spec(a as int, b as int, e as int),
        a <= b ==> a <= r <= b,
        b <= a ==> b <= r <= a,
{
    if b >= a {
        let d = b - a;
        proof {
            assert(0 <= d * e <= d * UNIT) by (nonlinear_arith)
                requires
                    0 <= d,
                    0 <= e <= UNIT,
            ;
            vstd::arithmetic::div_mod::lemma_div_is_ordered(d * e, d * UNIT, UNIT as int);
            vstd::arithmetic::div_mod::lemma_div_by_multiple(d as int, UNIT as int);
            vstd::arithmetic::div_mod::lemma_div_pos_is_pos(d * e, UNIT as int);
        }
        a + d * e / UNIT
    } else {
        let d = a - b;
        proof {
            assert(0 <= d * e <= d * UNIT) by (nonlinear_arith)
                requires
                    0 <= d,
                    0 <= e <= UNIT,
            ;
            vstd::arithmetic::div_mod::lemma_div_is_ordered(d * e, d * UNIT, UNIT as int);
            vstd::arithmetic::div_mod::lemma_div_by_multiple(d as int, UNIT as int);
            vstd::arithmetic::div_mod::lemma_div_pos_is_pos(d * e, UNIT as int);
        }
        a - d * e / UNIT
    }
}

/// `s` is the floor of the square root of `n`.
pub open spec fn is_floor_sqrt(n: int, s: int) -> bool {
    0 <= s && s * s <= n < (s + 1) * (s + 1)
}

/// Floor of the square root of `n`.
pub open spec fn sqrt_floor(n: int) -> int {
    choose|s: int| is_floor_sqrt(n, s)
}

/// Ceiling of the square root of `n`.
pub open spec fn sqrt_ceil(n: int) -> int {
    if sqrt_floor(n) * sqrt_floor(n) == n {
        sqrt_floor(n)
    } else {
        sqrt_floor(n) + 1
    }
}

pub proof fn lemma_sqrt_floor_unique(n: int, s: int)
    requires
        is_floor_sqrt(n, s),
    ensures
        sqrt_floor(n) == s,
{
    let c = sqrt_floor(n);
    assert(is_floor_sqrt(n, c));
    if c < s {
        assert((c + 1) * (c + 1) <= s * s) by (nonlinear_arith)
            requires
                0 <= c + 1 <= s,
        ;
    } else if s < c {
        assert((s + 1) * (s + 1) <= c * c) by (nonlinear_arith)
            requires
                0 <= s + 1 <= c,
        ;
    }
}

/// Floor of the square root.
pub fn isqrt(n: u128) -> (r: u128)
    ensures
        r == sqrt_floor(n as int),
        r * r <= n < (r + 1) * (r + 1),
        r < 0x1_0000_0000_0000_0000,
{
    let mut lo: u128 = 0;
    let mut hi: u128 = 0x1_0000_0000_0000_0000;
    proof {
        assert(hi * hi > u128::MAX) by (nonlinear_arith)
            requires
                hi == 0x1_0000_0000_0000_0000u128,
        ;
    }
    while hi - lo > 1
        invariant
            lo < hi <= 0x1_0000_0000_0000_0000,
            lo * lo <= n,
            n < hi * hi,
        decreases hi - lo,
    {
        let mid = lo + (hi - lo) / 2;
        proof {
            assert(mid * mid <= 0xFFFF_FFFF_FFFF_FFFFu128 * 0xFFFF_FFFF_FFFF_FFFFu128) by (nonlinear_arith)
                requires
                    mid < 0x1_0000_0000_0000_0000u128,
            ;
        }
        if mid * mid <= n {
            lo = mid;
        } else {
            hi = mid;
        }
    }
    proof {
        lemma_sqrt_floor_unique(n as int, lo as int);
    }
    lo
}

/// Ceiling of the square root.
pub fn isqrt_ceil(n: u128) -> (r: u128)
    ensures
        r == sqrt_ceil(n as int),
        n <= r * r,
        r == 0 || (r - 1) * (r - 1) < n,
{
    let f = isqrt(n);
    proof {
        assert(f * f < 0x1_0000_0000_0000_0000 * 0x1_0000_0000_0000_0000) by (nonlinear_arith)
            requires
                0 <= f < 0x1_0000_0000_0000_0000,
        ;
        if f > 0 {
            assert((f - 1) * (f - 1) < f * f) by (nonlinear_arith)
                requires
                    f > 0,
            ;
        }
    }
    if f * f == n {
        f
    } else {
        f + 1
    }
}

/// `n / d` rounded down, for any sign of `n`.
pub fn floor_div(n: i128, d: i128) -> (r: i128)
    requires
        0 < d <= 0x1_0000_0000_0000_0000_0000_0000,
        -0x1_0000_0000_0000_0000_0000_0000 <= n <= 0x1_0000_0000_0000_0000_0000_0000,
    ensures
        r == n / d,
{
    if n >= 0 {
        n / d
    } else {
        let m = -n;
        let q = (m + (d - 1)) / d;
        proof {
            vstd::arithmetic::div_mod::lemma_fundamental_div_mod((m + (d - 1)) as int, d as int);
            vstd::arithmetic::div_mod::lemma_mod_bound((m + (d - 1)) as int, d as int);
            let rr = (m + (d - 1)) as int % (d as int);
            assert(q * d == m + d - 1 - rr) by (nonlinear_arith)
                requires
                    m + (d - 1) == d * q + rr,
            ;
            assert((-q) * d == -(q * d)) by (nonlinear_arith);
            vstd::arithmetic::div_mod::lemma_fundamental_div_mod_converse(
                n as int,
                d as int,
                -q,
                n + q * d,
            );
        }
        -q
    }
}

} // verus!
