//! Point and vector algebra in fixed point.
//!
//! A coordinate is an `i64` counting thousandths of an arena unit, so a point
//! at `(500, 20.5)` is `Point { x: 500_000, y: 20_500 }`. A unit vector has
//! length `SCALE`, and a scalar factor is itself fixed point (`3000` means 3).
//! Divisions truncate toward zero, so every operation is symmetric under a
//! change of sign.

use vstd::arithmetic::div_mod::{lemma_fundamental_div_mod, lemma_mod_pos_bound};
use vstd::prelude::*;

verus! {

/// Fixed-point steps per arena unit.
pub const SCALE: i64 = 1000;

/// Largest magnitude a point coordinate may take.
pub const COORD_LIMIT: i64 = 1_000_000_000_000;

/// Largest magnitude a vector component may take: the difference of two points.
pub const VECTOR_LIMIT: i64 = 2_000_000_000_000;

#[derive(Clone, Copy, Debug, PartialEq, Eq, Structural)]
pub struct Point {
    pub x: i64,
    pub y: i64,
}

#[derive(Clone, Copy, Debug, PartialEq, Eq, Structural)]
pub struct Vector {
    pub x: i64,
    pub y: i64,
}

/// `r` is the integer square root of `n`: the largest `r` with `r * r <= n`.
pub open spec fn is_isqrt(n: int, r: int) -> bool {
    0 <= r && r * r <= n && n < (r + 1) * (r + 1)
}

pub open spec fn isqrt(n: int) -> int {
    choose|r: int| is_isqrt(n, r)
}

/// Division rounding toward zero, as Rust's integer `/` does.
pub open spec fn div_trunc(a: int, d: int) -> int {
    if a >= 0 {
        a / d
    } else {
        -((-a) / d)
    }
}

pub open spec fn abs(a: int) -> int {
    if a >= 0 {
        a
    } else {
        -a
    }
}

impl Point {
    pub open spec fn in_field(self) -> bool {
        -COORD_LIMIT <= self.x <= COORD_LIMIT && -COORD_LIMIT <= self.y <= COORD_LIMIT
    }
}

impl Vector {
    pub open spec fn bounded(self) -> bool {
        -VECTOR_LIMIT <= self.x <= VECTOR_LIMIT && -VECTOR_LIMIT <= self.y <= VECTOR_LIMIT
    }

    pub open spec fn norm_sq(self) -> int {
        self.x * self.x + self.y * self.y
    }
}

/// The vector from `a` toward `b`.
pub open spec fn between(a: Point, b: Point) -> Vector {
    Vector { x: (b.x - a.x) as i64, y: (b.y - a.y) as i64 }
}

/// `p` moved by `v`.
pub open spec fn translated(p: Point, v: Vector) -> Point {
    Point { x: (p.x + v.x) as i64, y: (p.y + v.y) as i64 }
}

/// `v` multiplied by the fixed-point factor `k`.
pub open spec fn scaled(v: Vector, k: int) -> Vector {
    Vector { x: div_trunc(v.x * k, SCALE as int) as i64, y: div_trunc(v.y * k, SCALE as int) as i64 }
}

/// The direction of `v` as a vector of length `SCALE`; the zero vector stays zero.
pub open spec fn unit(v: Vector) -> Vector {
    if v.x == 0 && v.y == 0 {
        v
    } else {
        let m = isqrt(v.norm_sq() * (SCALE * SCALE));
        Vector {
            x: div_trunc(v.x * (SCALE * SCALE), m) as i64,
            y: div_trunc(v.y * (SCALE * SCALE), m) as i64,
        }
    }
}

/// The integer square root exists and is unique.
pub proof fn lemma_isqrt(n: int, r: int)
    requires
        n >= 0,
    ensures
        is_isqrt(n, isqrt(n)),
        is_isqrt(n, r) ==> r == isqrt(n),
    decreases n,
{
    if n == 0 {
        assert(is_isqrt(0, 0));
    } else {
        lemma_isqrt(n - 1, 0);
        let s = isqrt(n - 1);
        if n < (s + 1) * (s + 1) {
            assert(is_isqrt(n, s));
        } else {
            assert((s + 2) * (s + 2) == (s + 1) * (s + 1) + 2 * s + 3) by (nonlinear_arith);
            assert(is_isqrt(n, s + 1));
        }
    }
    let q = isqrt(n);
    if is_isqrt(n, r) && r != q {
        if r < q {
            assert((r + 1) * (r + 1) <= q * q) by (nonlinear_arith)
                requires
                    0 <= r < q,
            ;
        } else {
            assert((q + 1) * (q + 1) <= r * r) by (nonlinear_arith)
                requires
                    0 <= q < r,
            ;
        }
    }
}

/// The integer square root of `n` is at least any `r` whose square is at most `n`.
pub(crate) proof fn lemma_isqrt_at_least(n: int, r: int)
    requires
        0 <= r,
        r * r <= n,
    ensures
        isqrt(n) >= r,
{
    lemma_isqrt(n, 0);
    let m = isqrt(n);
    if m < r {
        assert((m + 1) * (m + 1) <= r * r) by (nonlinear_arith)
            requires
                0 <= m < r,
        ;
    }
}

pub(crate) proof fn lemma_sq_le(x: int, y: int)
    requires
        0 <= x <= y,
    ensures
        x * x <= y * y,
{
    assert(x * x <= y * y) by (nonlinear_arith)
        requires
            0 <= x <= y,
    ;
}

proof fn lemma_sq_lt(x: int, y: int)
    requires
        0 <= x < y,
    ensures
        x * x < y * y,
{
    assert(x * x < y * y) by (nonlinear_arith)
        requires
            0 <= x < y,
    ;
}

/// Floor division of a non-negative number brackets it between two multiples.
pub(crate) proof fn lemma_div_floor(a: int, d: int)
    requires
        a >= 0,
        d > 0,
    ensures
        0 <= a / d,
        (a / d) * d <= a,
        a < (a / d + 1) * d,
{
    lemma_fundamental_div_mod(a, d);
    lemma_mod_pos_bound(a, d);
    let q = a / d;
    assert(q * d == d * q && (q + 1) * d == d * q + d) by (nonlinear_arith);
    assert(0 <= q) by (nonlinear_arith)
        requires
            a == d * q + a % d,
            a % d < d,
            a >= 0,
            d > 0,
    ;
}

/// The truncated quotient has the magnitude of the floor of the magnitudes and
/// the sign of the dividend.
pub(crate) proof fn lemma_div_trunc(a: int, d: int)
    requires
        d > 0,
    ensures
        abs(div_trunc(a, d)) == abs(a) / d,
        a >= 0 ==> div_trunc(a, d) >= 0,
        a <= 0 ==> div_trunc(a, d) <= 0,
{
    lemma_div_floor(abs(a), d);
}

/// Magnitudes of the parts of the unit vector of a nonzero vector: `m` is the
/// scaled length that both components are divided by.
pub(crate) proof fn lemma_unit_parts(v: Vector) -> (m: int)
    requires
        v.bounded(),
        !(v.x == 0 && v.y == 0),
    ensures
        is_isqrt(v.norm_sq() * (SCALE * SCALE), m),
        m == isqrt(v.norm_sq() * (SCALE * SCALE)),
        m >= SCALE,
        m >= abs(v.x as int) * SCALE,
        m >= abs(v.y as int) * SCALE,
        abs(unit(v).x as int) == abs(v.x as int) * (SCALE * SCALE) / m,
        abs(unit(v).y as int) == abs(v.y as int) * (SCALE * SCALE) / m,
        abs(unit(v).x as int) <= SCALE,
        abs(unit(v).y as int) <= SCALE,
        v.x >= 0 ==> unit(v).x >= 0,
        v.x <= 0 ==> unit(v).x <= 0,
        v.y >= 0 ==> unit(v).y >= 0,
        v.y <= 0 ==> unit(v).y <= 0,
{
    let a = abs(v.x as int);
    let b = abs(v.y as int);
    let s = SCALE as int;
    let n = v.norm_sq();
    assert(n == a * a + b * b) by (nonlinear_arith)
        requires
            a == abs(v.x as int),
            b == abs(v.y as int),
            n == v.x * v.x + v.y * v.y,
    ;
    assert(n >= 1 && n >= a * a && n >= b * b) by (nonlinear_arith)
        requires
            n == a * a + b * b,
            a >= 0,
            b >= 0,
            a > 0 || b > 0,
    ;
    let big = n * (s * s);
    lemma_isqrt(big, 0);
    let m = isqrt(big);
    assert(s * s <= big && (a * s) * (a * s) <= big && (b * s) * (b * s) <= big) by (nonlinear_arith)
        requires
            big == n * (s * s),
            n >= 1,
            n >= a * a,
            n >= b * b,
            s == 1000,
    ;
    lemma_isqrt_at_least(big, s);
    lemma_isqrt_at_least(big, a * s);
    lemma_isqrt_at_least(big, b * s);
    lemma_div_trunc(v.x * (s * s), m);
    lemma_div_trunc(v.y * (s * s), m);
    assert(abs(v.x * (s * s)) == a * (s * s) && abs(v.y * (s * s)) == b * (s * s))
        by (nonlinear_arith)
        requires
            a == abs(v.x as int),
            b == abs(v.y as int),
            s == 1000,
    ;
    lemma_quotient_at_most_scale(a, m);
    lemma_quotient_at_most_scale(b, m);
    m
}

/// `a * SCALE^2 / m` is at most `SCALE` once `m >= a * SCALE`.
proof fn lemma_quotient_at_most_scale(a: int, m: int)
    requires
        a >= 0,
        m >= SCALE,
        m >= a * SCALE,
    ensures
        a * (SCALE * SCALE) / m <= SCALE,
{
    let s = SCALE as int;
    lemma_div_floor(a * (s * s), m);
    let q = a * (s * s) / m;
    assert(q <= s) by (nonlinear_arith)
        requires
            q * m <= a * (s * s),
            m >= a * s,
            m >= s,
            s == 1000,
            a >= 0,
    ;
}

/// Each component of the unit vector of a nonzero vector falls short of its
/// exact value by less than one step, and never exceeds it.
pub(crate) proof fn lemma_unit_near(v: Vector)
    requires
        v.bounded(),
        !(v.x == 0 && v.y == 0),
    ensures
        unit(v).norm_sq() < (SCALE + 1) * (SCALE + 1),
        (abs(unit(v).x as int) + 1) * (abs(unit(v).x as int) + 1) + (abs(unit(v).y as int) + 1) * (
        abs(unit(v).y as int) + 1) > SCALE * SCALE,
{
    let m = lemma_unit_parts(v);
    let a = abs(v.x as int);
    let b = abs(v.y as int);
    let s = SCALE as int;
    let qx = abs(unit(v).x as int);
    let qy = abs(unit(v).y as int);
    let big = v.norm_sq() * (s * s);
    lemma_div_floor(a * (s * s), m);
    lemma_div_floor(b * (s * s), m);
    assert(v.norm_sq() == a * a + b * b) by (nonlinear_arith)
        requires
            a == abs(v.x as int),
            b == abs(v.y as int),
    ;
    assert(unit(v).norm_sq() == qx * qx + qy * qy) by (nonlinear_arith)
        requires
            qx == abs(unit(v).x as int),
            qy == abs(unit(v).y as int),
    ;
    // Upper bound: each component is at most its exact share.
    lemma_sq_le(qx * m, a * (s * s));
    lemma_sq_le(qy * m, b * (s * s));
    assert((qx * qx + qy * qy) * (m * m) == (qx * m) * (qx * m) + (qy * m) * (qy * m))
        by (nonlinear_arith);
    assert(big * (s * s) == (a * (s * s)) * (a * (s * s)) + (b * (s * s)) * (b * (s * s)))
        by (nonlinear_arith)
        requires
            big == (a * a + b * b) * (s * s),
    ;
    assert(big * (s * s) < (m * m) * ((s + 1) * (s + 1))) by {
        assert(big * (s * s) < ((m + 1) * s) * ((m + 1) * s)) by (nonlinear_arith)
            requires
                0 <= big < (m + 1) * (m + 1),
                s == 1000,
        ;
        lemma_sq_le((m + 1) * s, m * (s + 1));
        assert((m * (s + 1)) * (m * (s + 1)) == (m * m) * ((s + 1) * (s + 1))) by (nonlinear_arith);
    }
    assert(qx * qx + qy * qy < (s + 1) * (s + 1)) by (nonlinear_arith)
        requires
            (qx * qx + qy * qy) * (m * m) < (m * m) * ((s + 1) * (s + 1)),
            m > 0,
    ;
    // Lower bound: each component falls short of its exact share by less than one.
    lemma_sq_lt(a * (s * s), (qx + 1) * m);
    lemma_sq_lt(b * (s * s), (qy + 1) * m);
    assert(((qx + 1) * (qx + 1) + (qy + 1) * (qy + 1)) * (m * m) == ((qx + 1) * m) * ((qx + 1)
        * m) + ((qy + 1) * m) * ((qy + 1) * m)) by (nonlinear_arith);
    assert(big * (s * s) >= (m * m) * (s * s)) by (nonlinear_arith)
        requires
            m * m <= big,
    ;
    assert((qx + 1) * (qx + 1) + (qy + 1) * (qy + 1) > s * s) by (nonlinear_arith)
        requires
            ((qx + 1) * (qx + 1) + (qy + 1) * (qy + 1)) * (m * m) > (m * m) * (s * s),
            m > 0,
    ;
}

/// The unit vector of any nonzero vector has length one within rounding:
/// its squared length lies between `(SCALE - 2)^2` and `(SCALE + 1)^2`.
pub proof fn lemma_unit_length(v: Vector)
    requires
        v.bounded(),
        !(v.x == 0 && v.y == 0),
    ensures
        (SCALE - 2) * (SCALE - 2) <= unit(v).norm_sq() < (SCALE + 1) * (SCALE + 1),
{
    lemma_unit_near(v);
    let qx = abs(unit(v).x as int);
    let qy = abs(unit(v).y as int);
    lemma_short_of_unit(qx, qy);
    assert(unit(v).norm_sq() == qx * qx + qy * qy) by (nonlinear_arith)
        requires
            qx == abs(unit(v).x as int),
            qy == abs(unit(v).y as int),
    ;
}

/// Two non-negative components within one step each of length `SCALE` have a
/// squared length of at least `(SCALE - 2)^2`.
proof fn lemma_short_of_unit(qx: int, qy: int)
    requires
        qx >= 0,
        qy >= 0,
        (qx + 1) * (qx + 1) + (qy + 1) * (qy + 1) > SCALE * SCALE,
    ensures
        qx * qx + qy * qy >= (SCALE - 2) * (SCALE - 2),
{
    let s = SCALE as int;
    let s2 = qx * qx + qy * qy;
    let t = qx + qy;
    if s2 < (s - 2) * (s - 2) {
        assert(t * t <= 2 * s2) by (nonlinear_arith)
            requires
                t == qx + qy,
                s2 == qx * qx + qy * qy,
        ;
        assert(2 * t <= 3 * (s - 2)) by (nonlinear_arith)
            requires
                t * t <= 2 * s2,
                s2 < (s - 2) * (s - 2),
                t >= 0,
                s == 1000,
        ;
        assert((qx + 1) * (qx + 1) + (qy + 1) * (qy + 1) == s2 + 2 * t + 2) by (nonlinear_arith)
            requires
                t == qx + qy,
                s2 == qx * qx + qy * qy,
        ;
    }
}

/// Moving a point by the vector from it toward a second point lands on the second.
pub proof fn lemma_translate_between(p: Point, q: Point)
    requires
        p.in_field(),
        q.in_field(),
    ensures
        translated(p, between(p, q)) == q,
{
}

impl Vector {
    /// The vector from `a` toward `b`.
    pub fn new(a: Point, b: Point) -> (r: Vector)
        requires
            a.in_field(),
            b.in_field(),
        ensures
            r == between(a, b),
            r.bounded(),
    {
        Vector { x: b.x - a.x, y: b.y - a.y }
    }

    /// The direction of this vector at length `SCALE`, rounded toward zero.
    /// The zero vector has no direction and is returned unchanged.
    pub fn unit_vec(&self) -> (r: Vector)
        requires
            self.bounded(),
        ensures
            r == unit(*self),
    {
        if self.x == 0 && self.y == 0 {
            return *self;
        }
        let ghost m_spec = lemma_unit_parts(*self);
        let s: i128 = SCALE as i128;
        let x: i128 = self.x as i128;
        let y: i128 = self.y as i128;
        proof {
            lemma_sq_le(abs(x as int), VECTOR_LIMIT as int);
            lemma_sq_le(abs(y as int), VECTOR_LIMIT as int);
            assert(x * x == abs(x as int) * abs(x as int) && y * y == abs(y as int) * abs(y as int))
                by (nonlinear_arith);
        }
        let n: i128 = x * x + y * y;
        assert(n == self.norm_sq());
        let big: u128 = (n as u128) * 1_000_000u128;
        let m: u128 = isqrt_u128(big);
        proof {
            lemma_isqrt(big as int, m as int);
            assert(m <= m * m) by (nonlinear_arith)
                requires
                    m >= 1,
            ;
        }
        let ux: i128 = div_trunc_i128(x * (s * s), m as i128);
        let uy: i128 = div_trunc_i128(y * (s * s), m as i128);
        Vector { x: ux as i64, y: uy as i64 }
    }
}

/// Division rounding toward zero.
fn div_trunc_i128(a: i128, d: i128) -> (r: i128)
    requires
        d > 0,
        a > i128::MIN,
    ensures
        r == div_trunc(a as int, d as int),
{
    if a >= 0 {
        ((a as u128) / (d as u128)) as i128
    } else {
        -((((-a) as u128) / (d as u128)) as i128)
    }
}

impl std::ops::Add<Vector> for Point {
    type Output = Point;

    /// This point moved by `v`.
    fn add(self, v: Vector) -> (r: Point)
        ensures
            r == translated(self, v),
    {
        Point { x: self.x + v.x, y: self.y + v.y }
    }
}

impl vstd::std_specs::ops::AddSpecImpl<Vector> for Point {
    open spec fn obeys_add_spec() -> bool {
        true
    }

    open spec fn add_req(self, v: Vector) -> bool {
        i64::MIN <= self.x + v.x <= i64::MAX && i64::MIN <= self.y + v.y <= i64::MAX
    }

    open spec fn add_spec(self, v: Vector) -> Point {
        translated(self, v)
    }
}

impl std::ops::Mul<i64> for Vector {
    type Output = Vector;

    /// This vector multiplied by the fixed-point factor `k`.
    fn mul(self, k: i64) -> (r: Vector)
        ensures
            r == scaled(self, k as int),
    {
        let s: i128 = SCALE as i128;
        let x: i128 = div_trunc_i128(self.x as i128 * k as i128, s);
        let y: i128 = div_trunc_i128(self.y as i128 * k as i128, s);
        Vector { x: x as i64, y: y as i64 }
    }
}

impl vstd::std_specs::ops::MulSpecImpl<i64> for Vector {
    open spec fn obeys_mul_spec() -> bool {
        true
    }

    open spec fn mul_req(self, k: i64) -> bool {
        abs(self.x * k) <= i64::MAX && abs(self.y * k) <= i64::MAX
    }

    open spec fn mul_spec(self, k: i64) -> Vector {
        scaled(self, k as int)
    }
}

fn isqrt_u128(n: u128) -> (r: u128)
    ensures
        is_isqrt(n as int, r as int),
{
    let mut lo: u128 = 0;
    let mut hi: u128 = 0x1_0000_0000_0000_0000;
    while hi - lo > 1
        invariant
            lo < hi <= 0x1_0000_0000_0000_0000u128,
            lo * lo <= n,
            n < hi * hi,
        decreases hi - lo,
    {
        let mid = lo + (hi - lo) / 2;
        assert(mid * mid < 0x1_0000_0000_0000_0000u128 * 0x1_0000_0000_0000_0000u128)
            by (nonlinear_arith)
            requires
                mid < 0x1_0000_0000_0000_0000u128,
        ;
        if mid * mid <= n {
            lo = mid;
        } else {
            hi = mid;
        }
    }
    lo
}

} // verus!
