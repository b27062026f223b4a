//! Axial hex coordinates: arithmetic, distance, exact rational
//! interpolation and cube rounding.
//!
//! A cell is addressed by a pair of integers `(q, r)`; the implicit third
//! cube coordinate is `s = -q - r`. Fractional coordinates, which arise
//! while interpolating between two cells, are held exactly as a pair of
//! numerators over a common positive denominator, so rounding back onto
//! the lattice is exact integer arithmetic.

use vstd::arithmetic::div_mod::{
    lemma_fundamental_div_mod, lemma_fundamental_div_mod_converse, lemma_mod_bound,
};
use vstd::prelude::*;

verus! {

/// Largest coordinate magnitude the arithmetic here accepts; generous
/// enough for any grid while keeping every intermediate product in `i64`.
pub const COORD_LIMIT: i64 = 500_000_000;

/// Bound on a fractional numerator, so sums and products stay in `i64`.
pub const FRAC_NUM_LIMIT: i64 = 4_000_000_000_000_000_000;

/// Bound on a fractional denominator.
pub const FRAC_DEN_LIMIT: i64 = 400_000_000_000_000_000;

/// Bound on the rounded value of an in-range fractional coordinate.
pub const ROUNDED_LIMIT: i64 = 1_000_000_000;

/// An axial coordinate on the hex lattice.
#[derive(PartialEq, Eq, Structural, Hash, Debug, Clone, Copy)]
pub struct HexCoord {
    pub q: i32,
    pub r: i32,
}

/// A fractional axial coordinate `(q_num/den, r_num/den)`, the transient
/// value produced while interpolating along a line between two cells.
#[derive(Debug, Clone, Copy)]
pub struct FractionalHexCoord {
    pub q_num: i64,
    pub r_num: i64,
    pub den: i64,
}

/// Integer absolute value.
pub open spec fn absi(x: int) -> int {
    if x < 0 {
        -x
    } else {
        x
    }
}

/// Nearest integer to `n / d`, ties rounded away from zero.
pub open spec fn round_nearest(n: int, d: int) -> int
    recommends
        d > 0,
{
    if n >= 0 {
        (n + d / 2) / d
    } else {
        -((-n + d / 2) / d)
    }
}

/// Cube rounding of the fractional coordinate `(qn/d, rn/d)`: round each
/// cube axis to the nearest integer, then recompute the axis whose
/// rounding error is largest from the other two, so the result lies on
/// the integer plane `q + r + s == 0`.
pub open spec fn hex_round_spec(qn: int, rn: int, d: int) -> (int, int)
    recommends
        d > 0,
{
    let q0: int = round_nearest(qn, d);
    let r0: int = round_nearest(rn, d);
    let sn: int = -qn - rn;
    let s0: int = round_nearest(sn, d);
    let eq: int = absi(qn - q0 * d);
    let er: int = absi(rn - r0 * d);
    let es: int = absi(sn - s0 * d);
    if eq > er && eq > es {
        (-r0 - s0, r0)
    } else if er > es {
        (q0, -q0 - s0)
    } else {
        (q0, r0)
    }
}

/// Cube distance between two axial coordinates.
pub open spec fn hex_dist(a: HexCoord, b: HexCoord) -> int {
    (absi(a.q - b.q) + absi(a.r - b.r) + absi((a.q - b.q) + (a.r - b.r))) / 2
}

/// True when a coordinate is small enough for the arithmetic here.
pub open spec fn coord_in_range(c: HexCoord) -> bool {
    &&& -COORD_LIMIT <= c.q <= COORD_LIMIT
    &&& -COORD_LIMIT <= c.r <= COORD_LIMIT
}

impl FractionalHexCoord {
    /// Both numerators are in range for the denominator, and everything
    /// is small enough that cube rounding stays inside `i64`.
    pub open spec fn wf(self) -> bool {
        &&& 0 < self.den <= FRAC_DEN_LIMIT
        &&& absi(self.q_num as int) <= FRAC_NUM_LIMIT
        &&& absi(self.r_num as int) <= FRAC_NUM_LIMIT
        &&& absi(self.q_num as int) <= ROUNDED_LIMIT * self.den
        &&& absi(self.r_num as int) <= ROUNDED_LIMIT * self.den
    }
}

/// The rounding error of `round_nearest` is at most half a unit:
/// `2 * |round_nearest(n, d) * d - n| <= d`.
pub proof fn lemma_round_nearest_err(n: int, d: int)
    requires
        d > 0,
    ensures
        2 * absi(n - round_nearest(n, d) * d) <= d,
{
    let h: int = d / 2;
    lemma_fundamental_div_mod(d, 2);
    lemma_mod_bound(d, 2);
    if n >= 0 {
        let x: int = n + h;
        let r: int = x / d;
        lemma_fundamental_div_mod(x, d);
        lemma_mod_bound(x, d);
        let m: int = x % d;
        assert(n - r * d == m - h);
    } else {
        let x: int = (-n) + h;
        let r: int = x / d;
        lemma_fundamental_div_mod(x, d);
        lemma_mod_bound(x, d);
        let m: int = x % d;
        assert((-n) - r * d == m - h);
        assert(round_nearest(n, d) == -r);
        assert(n - (-r) * d == -(m - h)) by (nonlinear_arith)
            requires
                (-n) - r * d == m - h,
        ;
    }
}

/// Rounding an exact integer multiple gives that integer back.
pub proof fn lemma_round_nearest_exact(q: int, d: int)
    requires
        d > 0,
    ensures
        round_nearest(q * d, d) == q,
{
    let h: int = d / 2;
    lemma_fundamental_div_mod(d, 2);
    lemma_mod_bound(d, 2);
    if q >= 0 {
        assert(q * d >= 0) by (nonlinear_arith)
            requires
                q >= 0,
                d > 0,
        ;
        lemma_fundamental_div_mod_converse(q * d + h, d, q, h);
    } else {
        assert(q * d < 0) by (nonlinear_arith)
            requires
                q < 0,
                d > 0,
        ;
        assert(-(q * d) == (-q) * d) by (nonlinear_arith);
        lemma_fundamental_div_mod_converse((-q) * d + h, d, -q, h);
        assert(round_nearest(q * d, d) == -(((-q) * d + h) / d));
    }
}

/// Cube rounding of an exact lattice point is the identity.
pub proof fn lemma_hex_round_exact(q: int, r: int, d: int)
    requires
        d > 0,
    ensures
        hex_round_spec(q * d, r * d, d) == (q, r),
{
    lemma_round_nearest_exact(q, d);
    lemma_round_nearest_exact(r, d);
    assert(-(q * d) - r * d == (-q - r) * d) by (nonlinear_arith);
    lemma_round_nearest_exact(-q - r, d);
    assert(absi(q * d - q * d) == 0);
    assert(absi(r * d - r * d) == 0);
    assert(absi((-(q * d) - r * d) - (-q - r) * d) == 0);
}

/// A value `v` with `|v * d - n| <= d` and `|n| <= bound * d` satisfies
/// `|v| <= bound + 1`.
pub proof fn lemma_scaled_bound(v: int, n: int, d: int, bound: int)
    requires
        d > 0,
        0 <= bound,
        absi(v * d - n) <= d,
        absi(n) <= bound * d,
    ensures
        absi(v) <= bound + 1,
{
    assert(absi(v * d) <= bound * d + d);
    assert(absi(v) * d == absi(v * d)) by (nonlinear_arith)
        requires
            d > 0,
    ;
    assert(absi(v) <= bound + 1) by (nonlinear_arith)
        requires
            d > 0,
            absi(v) * d <= bound * d + d,
            0 <= absi(v),
    ;
}

/// Cube rounding never moves either axial component by more than one
/// unit of the denominator: the result is one of the lattice points
/// adjacent to the fractional input.
pub proof fn lemma_hex_round_near(qn: int, rn: int, d: int)
    requires
        d > 0,
    ensures
        absi(hex_round_spec(qn, rn, d).0 * d - qn) <= d,
        absi(hex_round_spec(qn, rn, d).1 * d - rn) <= d,
{
    let q0: int = round_nearest(qn, d);
    let r0: int = round_nearest(rn, d);
    let sn: int = -qn - rn;
    let s0: int = round_nearest(sn, d);
    lemma_round_nearest_err(qn, d);
    lemma_round_nearest_err(rn, d);
    lemma_round_nearest_err(sn, d);
    assert((-r0 - s0) * d == -(r0 * d) - s0 * d) by (nonlinear_arith);
    assert((-q0 - s0) * d == -(q0 * d) - s0 * d) by (nonlinear_arith);
}

/// Cube distance is symmetric and zero on the diagonal.
pub proof fn lemma_distance_properties(a: HexCoord, b: HexCoord)
    ensures
        hex_dist(a, b) == hex_dist(b, a),
        hex_dist(a, a) == 0,
{
    assert(absi(a.q - b.q) == absi(b.q - a.q));
    assert(absi(a.r - b.r) == absi(b.r - a.r));
    assert(absi((a.q - b.q) + (a.r - b.r)) == absi((b.q - a.q) + (b.r - a.r)));
}

/// Absolute value of an `i64` that is not `i64::MIN`.
fn abs_i64(x: i64) -> (r: i64)
    requires
        x != i64::MIN,
    ensures
        r == absi(x as int),
{
    if x < 0 {
        -x
    } else {
        x
    }
}

/// Quotient of two nonnegative `i64` values.
fn div_i64(n: i64, d: i64) -> (r: i64)
    requires
        0 <= n,
        0 < d,
    ensures
        r == n as int / d as int,
{
    proof {
        lemma_fundamental_div_mod(n as int, d as int);
        lemma_mod_bound(n as int, d as int);
        let q: int = n as int / d as int;
        assert(0 <= q && q <= q * (d as int)) by (nonlinear_arith)
            requires
                (d as int) > 0,
                0 <= n as int,
                n as int == (d as int) * q + n as int % (d as int),
                0 <= n as int % (d as int) < (d as int),
        ;
    }
    ((n as u64) / (d as u64)) as i64
}

/// Nearest integer to `n / d`, ties away from zero, by exact integer
/// arithmetic.
fn round_ratio(n: i64, d: i64) -> (r: i64)
    requires
        0 < d,
        n <= i64::MAX - d,
        -(i64::MAX - d) <= n,
    ensures
        r == round_nearest(n as int, d as int),
        2 * absi(n - r * d) <= d,
        absi(r * d) <= absi(n as int) + d,
{
    proof {
        lemma_round_nearest_err(n as int, d as int);
        lemma_fundamental_div_mod(d as int, 2);
        lemma_mod_bound(d as int, 2);
    }
    let h: i64 = div_i64(d, 2);
    if n >= 0 {
        div_i64(n + h, d)
    } else {
        -div_i64((-n) + h, d)
    }
}

impl HexCoord {
    /// Interpolate between `a` and `b` at parameter `t_num / t_den` along
    /// the straight cube-coordinate path, then round back onto the
    /// lattice. The parameter is an exact rational in `[0, 1]`.
    pub fn lerp(a: &HexCoord, b: &HexCoord, t_num: i64, t_den: i64) -> (res: HexCoord)
        requires
            0 <= t_num <= t_den,
            0 < t_den <= 2_000_000_000,
            coord_in_range(*a),
            coord_in_range(*b),
        ensures
            (res.q as int, res.r as int) == hex_round_spec(
                a.q * (t_den - t_num) + b.q * t_num,
                a.r * (t_den - t_num) + b.r * t_num,
                t_den as int,
            ),
    {
        let s: i64 = t_den - t_num;
        proof {
            assert(absi(a.q as int * s + b.q as int * t_num) <= COORD_LIMIT * t_den
                && absi(a.q as int * s) <= COORD_LIMIT * t_den
                && absi(b.q as int * t_num) <= COORD_LIMIT * t_den) by (nonlinear_arith)
                requires
                    -COORD_LIMIT <= a.q <= COORD_LIMIT,
                    -COORD_LIMIT <= b.q <= COORD_LIMIT,
                    0 <= t_num,
                    0 <= s,
                    s + t_num == t_den,
            ;
            assert(absi(a.r as int * s + b.r as int * t_num) <= COORD_LIMIT * t_den
                && absi(a.r as int * s) <= COORD_LIMIT * t_den
                && absi(b.r as int * t_num) <= COORD_LIMIT * t_den) by (nonlinear_arith)
                requires
                    -COORD_LIMIT <= a.r <= COORD_LIMIT,
                    -COORD_LIMIT <= b.r <= COORD_LIMIT,
                    0 <= t_num,
                    0 <= s,
                    s + t_num == t_den,
            ;
        }
        let q_num: i64 = a.q as i64 * s + b.q as i64 * t_num;
        let r_num: i64 = a.r as i64 * s + b.r as i64 * t_num;
        Self::round(FractionalHexCoord { q_num, r_num, den: t_den })
    }

    /// Round a fractional coordinate onto the lattice (cube rounding).
    pub fn round(coord: FractionalHexCoord) -> (res: HexCoord)
        requires
            coord.wf(),
        ensures
            (res.q as int, res.r as int) == hex_round_spec(
                coord.q_num as int,
                coord.r_num as int,
                coord.den as int,
            ),
    {
        let qn: i64 = coord.q_num;
        let rn: i64 = coord.r_num;
        let d: i64 = coord.den;
        let q0: i64 = round_ratio(qn, d);
        let r0: i64 = round_ratio(rn, d);
        let sn: i64 = -qn - rn;
        let s0: i64 = round_ratio(sn, d);
        proof {
            lemma_scaled_bound(q0 as int, qn as int, d as int, ROUNDED_LIMIT as int);
            lemma_scaled_bound(r0 as int, rn as int, d as int, ROUNDED_LIMIT as int);
            lemma_scaled_bound(s0 as int, sn as int, d as int, 2 * ROUNDED_LIMIT as int);
        }
        let eq: i64 = abs_i64(qn - q0 * d);
        let er: i64 = abs_i64(rn - r0 * d);
        let es: i64 = abs_i64(sn - s0 * d);
        if eq > er && eq > es {
            proof {
                assert((-r0 - s0) * d == -(r0 * d) - s0 * d) by (nonlinear_arith);
                assert(absi((-r0 - s0) * d - qn) <= d);
                lemma_scaled_bound(-r0 - s0, qn as int, d as int, ROUNDED_LIMIT as int);
            }
            HexCoord { q: (-r0 - s0) as i32, r: r0 as i32 }
        } else if er > es {
            proof {
                assert((-q0 - s0) * d == -(q0 * d) - s0 * d) by (nonlinear_arith);
                assert(absi((-q0 - s0) * d - rn) <= d);
                lemma_scaled_bound(-q0 - s0, rn as int, d as int, ROUNDED_LIMIT as int);
            }
            HexCoord { q: q0 as i32, r: (-q0 - s0) as i32 }
        } else {
            HexCoord { q: q0 as i32, r: r0 as i32 }
        }
    }

    /// Cube distance to `other`.
    pub fn distance(&self, other: &HexCoord) -> (d: i32)
        requires
            coord_in_range(*self),
            coord_in_range(*other),
        ensures
            d == hex_dist(*self, *other),
            0 <= d,
    {
        let vq: i64 = self.q as i64 - other.q as i64;
        let vr: i64 = self.r as i64 - other.r as i64;
        let aq: i64 = abs_i64(vq);
        let ar: i64 = abs_i64(vr);
        let aqr: i64 = abs_i64(vq + vr);
        div_i64(aq + ar + aqr, 2) as i32
    }

    /// Component-wise sum.
    pub fn add(&self, rhs: &HexCoord) -> (res: HexCoord)
        requires
            i32::MIN <= self.q + rhs.q <= i32::MAX,
            i32::MIN <= self.r + rhs.r <= i32::MAX,
        ensures
            res.q == self.q + rhs.q,
            res.r == self.r + rhs.r,
    {
        HexCoord { q: self.q + rhs.q, r: self.r + rhs.r }
    }

    /// Component-wise difference.
    pub fn sub(&self, rhs: &HexCoord) -> (res: HexCoord)
        requires
            i32::MIN <= self.q - rhs.q <= i32::MAX,
            i32::MIN <= self.r - rhs.r <= i32::MAX,
        ensures
            res.q == self.q - rhs.q,
            res.r == self.r - rhs.r,
    {
        HexCoord { q: self.q - rhs.q, r: self.r - rhs.r }
    }
}

} // verus!
