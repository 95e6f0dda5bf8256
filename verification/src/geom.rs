//! Fixed-point 2D geometry for the battlefield.
//!
//! Positions are integer coordinates in milli-units (one thousandth of a world
//! unit), so a slime that stands 50 units from its target is 50_000 milli-units
//! away. All distance gates compare squared distances exactly; steering uses an
//! exact integer square root, so every displacement is a pure function of the
//! positions involved — nothing here depends on a frame's delta time unless it
//! is passed in explicitly.

use vstd::prelude::*;

verus! {

use vstd::arithmetic::mul::{lemma_mul_inequality, lemma_mul_upper_bound, lemma_mul_strict_upper_bound};
use vstd::arithmetic::div_mod::{lemma_div_by_multiple, lemma_div_is_ordered, lemma_div_pos_is_pos};

/// Coordinates are confined to this box so that squares and cross products of
/// coordinate differences always fit in an `i64`.
pub const MAX_COORD: i64 = 100_000_000;

/// No single displacement (one tick of steering, or one knockback) may exceed
/// this magnitude in milli-units; it keeps `diff * magnitude` inside an `i64`.
pub const MAX_STEP: i64 = 10_000_000;

/// Upper bound on a squared distance between in-bounds positions.
pub const MAX_DIST2: i64 = 0x7000_0000_0000_0000;

/// A battlefield position (or displacement) in milli-units.
#[derive(Clone, Copy, PartialEq, Eq, Structural, Debug)]
pub struct Pos {
    pub x: i64,
    pub y: i64,
}

pub open spec fn in_bounds(p: Pos) -> bool {
    &&& -MAX_COORD <= p.x <= MAX_COORD
    &&& -MAX_COORD <= p.y <= MAX_COORD
}

pub open spec fn sq(v: int) -> int {
    v * v
}

/// Squared distance between two positions.
pub open spec fn dist2(a: Pos, b: Pos) -> int {
    sq(a.x - b.x) + sq(a.y - b.y)
}

/// `|a * b| <= m * n` whenever `|a| <= m` and `|b| <= n`.
pub proof fn lemma_abs_mul_bound(a: int, b: int, m: int, n: int)
    requires
        -m <= a <= m,
        -n <= b <= n,
        0 <= m,
        0 <= n,
    ensures
        -(m * n) <= a * b <= m * n,
{
    if a >= 0 {
        if b >= 0 {
            lemma_mul_upper_bound(a, m, b, n);
            assert(a * b >= 0) by (nonlinear_arith)
                requires a >= 0, b >= 0;
        } else {
            lemma_mul_upper_bound(a, m, -b, n);
            assert(a * (-b) == -(a * b)) by (nonlinear_arith);
            assert(a * b <= 0) by (nonlinear_arith)
                requires a >= 0, b <= 0;
        }
    } else {
        if b >= 0 {
            lemma_mul_upper_bound(-a, m, b, n);
            assert((-a) * b == -(a * b)) by (nonlinear_arith);
            assert(a * b <= 0) by (nonlinear_arith)
                requires a <= 0, b >= 0;
        } else {
            lemma_mul_upper_bound(-a, m, -b, n);
            assert((-a) * (-b) == a * b) by (nonlinear_arith);
            assert(a * b >= 0) by (nonlinear_arith)
                requires a <= 0, b <= 0;
        }
    }
}

/// Distance is symmetric.
pub proof fn lemma_dist2_symmetric(a: Pos, b: Pos)
    ensures
        dist2(a, b) == dist2(b, a),
{
    assert(sq(a.x - b.x) == sq(b.x - a.x) && sq(a.y - b.y) == sq(b.y - a.y))
        by (nonlinear_arith);
}

/// Squared distances between in-bounds positions fit comfortably in an `i64`.
pub proof fn lemma_dist2_bounded(a: Pos, b: Pos)
    requires
        in_bounds(a),
        in_bounds(b),
    ensures
        0 <= dist2(a, b) <= MAX_DIST2,
{
    let dx = a.x - b.x;
    let dy = a.y - b.y;
    lemma_abs_mul_bound(dx, dx, 2 * MAX_COORD as int, 2 * MAX_COORD as int);
    lemma_abs_mul_bound(dy, dy, 2 * MAX_COORD as int, 2 * MAX_COORD as int);
    assert(200_000_000 * 200_000_000 == 40_000_000_000_000_000int) by (nonlinear_arith);
    assert(dx * dx >= 0) by (nonlinear_arith);
    assert(dy * dy >= 0) by (nonlinear_arith);
}

/// Exact squared distance between two in-bounds positions.
pub fn dist2_exec(a: Pos, b: Pos) -> (r: i64)
    requires
        in_bounds(a),
        in_bounds(b),
    ensures
        r == dist2(a, b),
        0 <= r <= MAX_DIST2,
{
    proof {
        lemma_dist2_bounded(a, b);
        lemma_abs_mul_bound(a.x - b.x, a.x - b.x, 2 * MAX_COORD as int, 2 * MAX_COORD as int);
        lemma_abs_mul_bound(a.y - b.y, a.y - b.y, 2 * MAX_COORD as int, 2 * MAX_COORD as int);
    }
    let dx = a.x - b.x;
    let dy = a.y - b.y;
    dx * dx + dy * dy
}

/// The integer square root, rounded toward zero: the largest `r` with
/// `r * r <= n` (zero for non-positive `n`).
pub open spec fn sqrt_floor(n: int) -> int
    decreases n,
{
    if n <= 0 {
        0
    } else {
        let r = sqrt_floor(n - 1);
        if (r + 1) * (r + 1) <= n {
            r + 1
        } else {
            r
        }
    }
}

pub proof fn lemma_sqrt_floor_bounds(n: int)
    requires
        0 <= n,
    ensures
        0 <= sqrt_floor(n),
        sqrt_floor(n) * sqrt_floor(n) <= n,
        n < (sqrt_floor(n) + 1) * (sqrt_floor(n) + 1),
    decreases n,
{
    if n == 0 {
        assert(sqrt_floor(0) == 0);
    } else {
        lemma_sqrt_floor_bounds(n - 1);
        let r = sqrt_floor(n - 1);
        assert(r * r <= n - 1);
        assert(n - 1 < (r + 1) * (r + 1));
        if (r + 1) * (r + 1) <= n {
            assert(sqrt_floor(n) == r + 1);
            assert(n < (sqrt_floor(n) + 1) * (sqrt_floor(n) + 1)) by (nonlinear_arith)
                requires
                    0 <= r,
                    n <= (r + 1) * (r + 1),
                    sqrt_floor(n) == r + 1,
            ;
        } else {
            assert(sqrt_floor(n) == r);
        }
    }
}

/// Any `r` that satisfies the square-root bracketing is the floor square root.
pub proof fn lemma_sqrt_floor_unique(n: int, r: int)
    requires
        0 <= r,
        r * r <= n,
        n < (r + 1) * (r + 1),
    ensures
        r == sqrt_floor(n),
{
    lemma_sqrt_floor_bounds(n);
    let s = sqrt_floor(n);
    if r < s {
        assert((r + 1) * (r + 1) <= s * s) by (nonlinear_arith)
            requires
                0 <= r,
                r + 1 <= s,
        ;
    }
    if s < r {
        assert((s + 1) * (s + 1) <= r * r) by (nonlinear_arith)
            requires
                0 <= s,
                s + 1 <= r,
        ;
    }
}

/// Exact integer square root by bisection.
pub fn isqrt(n: i64) -> (r: i64)
    requires
        0 <= n <= MAX_DIST2,
    ensures
        r == sqrt_floor(n as int),
        0 <= r,
        r * r <= n,
        n < (r + 1) * (r + 1),
{
    let mut lo: i64 = 0;
    // 2^31.5 > sqrt(MAX_DIST2), so this upper bracket always satisfies
    // hi * hi > n.
    let mut hi: i64 = 3_037_000_500;
    proof {
        assert(3_037_000_500 * 3_037_000_500 == 9223372037000250000int) by (nonlinear_arith);
    }
    while lo + 1 < hi
        invariant
            0 <= lo < hi <= 3_037_000_500,
            lo * lo <= n,
            n < hi * hi,
        decreases hi - lo,
    {
        let mid = lo + (hi - lo) / 2;
        proof {
            lemma_abs_mul_bound(mid as int, mid as int, 3_037_000_499, 3_037_000_499);
            assert(3_037_000_499 * 3_037_000_499 == 9223372030926249001int) by (nonlinear_arith);
        }
        if mid * mid <= n {
            lo = mid;
        } else {
            hi = mid;
        }
    }
    proof {
        lemma_sqrt_floor_unique(n as int, lo as int);
    }
    lo
}

/// Signed division that rounds toward zero, matching Rust's `/` on `i64`.
pub open spec fn div_to_zero(a: int, b: int) -> int
    recommends
        b > 0,
{
    if a >= 0 {
        a / b
    } else {
        -((-a) / b)
    }
}

/// Negating the dividend negates a toward-zero quotient exactly.
pub proof fn lemma_div_to_zero_neg(a: int, b: int)
    requires
        b > 0,
    ensures
        div_to_zero(-a, b) == -div_to_zero(a, b),
{
    if a == 0 {
        assert(0int / b == 0) by (nonlinear_arith)
            requires b > 0;
    }
}

/// The displacement of magnitude (at most) `mag` that points from `from`
/// toward `to`: each component of the difference vector is scaled by
/// `mag / |to - from|` in exact integer arithmetic. The zero vector when the
/// positions coincide.
pub open spec fn offset_toward(from: Pos, to: Pos, mag: int) -> Pos {
    let dx = to.x - from.x;
    let dy = to.y - from.y;
    let d = sqrt_floor(dist2(from, to));
    if d == 0 {
        Pos { x: 0, y: 0 }
    } else {
        Pos { x: div_to_zero(dx * mag, d) as i64, y: div_to_zero(dy * mag, d) as i64 }
    }
}

/// The offset toward a point never exceeds the requested magnitude on
/// either axis.
pub proof fn lemma_offset_toward_bounded(from: Pos, to: Pos, mag: int)
    requires
        in_bounds(from),
        in_bounds(to),
        0 <= mag,
    ensures
        -mag <= offset_toward(from, to, mag).x <= mag,
        -mag <= offset_toward(from, to, mag).y <= mag,
{
    let dx = to.x - from.x;
    let dy = to.y - from.y;
    let n = dist2(from, to);
    lemma_dist2_bounded(from, to);
    lemma_sqrt_floor_bounds(n);
    let d = sqrt_floor(n);
    if d != 0 {
        assert(dx * dx == sq(to.x - from.x) && dy * dy == sq(to.y - from.y))
            by (nonlinear_arith)
            requires dx == to.x - from.x, dy == to.y - from.y;
        assert(sq(to.x - from.x) == sq(from.x - to.x) && sq(to.y - from.y) == sq(
            from.y - to.y,
        )) by (nonlinear_arith);
        assert(dx * dx >= 0 && dy * dy >= 0) by (nonlinear_arith);
        lemma_component_le_sqrt(dx, n, d);
        lemma_component_le_sqrt(dy, n, d);
        lemma_scaled_component_bounded(dx, d, mag);
        lemma_scaled_component_bounded(dy, d, mag);
    }
}

/// A scaled component never exceeds the requested magnitude: if `|c| <= d`
/// and `d > 0` then `|c * mag / d| <= mag`.
pub proof fn lemma_scaled_component_bounded(c: int, d: int, mag: int)
    requires
        -d <= c <= d,
        d > 0,
        mag >= 0,
    ensures
        -mag <= div_to_zero(c * mag, d) <= mag,
{
    if c >= 0 {
        lemma_mul_inequality(c, d, mag);
        lemma_div_is_ordered(c * mag, d * mag, d);
        lemma_div_by_multiple(mag, d);
        assert(mag * d == d * mag) by (nonlinear_arith);
        assert(c * mag >= 0) by (nonlinear_arith)
            requires c >= 0, mag >= 0;
        lemma_div_pos_is_pos(c * mag, d);
    } else {
        lemma_mul_inequality(-c, d, mag);
        lemma_div_is_ordered((-c) * mag, d * mag, d);
        lemma_div_by_multiple(mag, d);
        assert(mag * d == d * mag) by (nonlinear_arith);
        assert((-c) * mag == -(c * mag)) by (nonlinear_arith);
        assert((-c) * mag >= 0) by (nonlinear_arith)
            requires c <= 0, mag >= 0;
        lemma_div_pos_is_pos((-c) * mag, d);
    }
}

/// Each coordinate difference is bounded by the floor square root of the
/// squared distance.
pub proof fn lemma_component_le_sqrt(c: int, n: int, d: int)
    requires
        d >= 0,
        c * c <= n,
        n < (d + 1) * (d + 1),
    ensures
        -d <= c <= d,
{
    if c > d {
        assert((d + 1) * (d + 1) <= c * c) by (nonlinear_arith)
            requires
                0 <= d,
                d + 1 <= c,
        ;
    }
    if c < -d {
        assert((d + 1) * (d + 1) <= c * c) by (nonlinear_arith)
            requires
                0 <= d,
                d + 1 <= -c,
        ;
    }
}

/// The displacement of magnitude `mag` from `from` toward `to`, exactly as
/// `offset_toward` specifies it, with each component bounded by `mag`.
pub fn offset_toward_exec(from: Pos, to: Pos, mag: i64) -> (r: Pos)
    requires
        in_bounds(from),
        in_bounds(to),
        0 <= mag <= MAX_STEP,
    ensures
        r == offset_toward(from, to, mag as int),
        -mag <= r.x <= mag,
        -mag <= r.y <= mag,
{
    let dx = to.x - from.x;
    let dy = to.y - from.y;
    let n = dist2_exec(from, to);
    let d = isqrt(n);
    if d == 0 {
        Pos { x: 0, y: 0 }
    } else {
        proof {
            assert(dx * dx == sq(to.x - from.x) && dy * dy == sq(to.y - from.y))
                by (nonlinear_arith)
                requires dx == to.x - from.x, dy == to.y - from.y;
            assert(sq(to.x - from.x) == sq(from.x - to.x) && sq(to.y - from.y) == sq(
                from.y - to.y,
            )) by (nonlinear_arith);
            assert(dx * dx >= 0 && dy * dy >= 0) by (nonlinear_arith);
            assert(dx * dx <= n && dy * dy <= n);
            lemma_component_le_sqrt(dx as int, n as int, d as int);
            lemma_component_le_sqrt(dy as int, n as int, d as int);
            lemma_abs_mul_bound(dx as int, mag as int, 2 * MAX_COORD as int, MAX_STEP as int);
            lemma_abs_mul_bound(dy as int, mag as int, 2 * MAX_COORD as int, MAX_STEP as int);
            assert(200_000_000 * 10_000_000 == 2_000_000_000_000_000int) by (nonlinear_arith);
            lemma_scaled_component_bounded(dx as int, d as int, mag as int);
            lemma_scaled_component_bounded(dy as int, d as int, mag as int);
            assert((-dx) * mag == -(dx * mag)) by (nonlinear_arith);
            assert((-dy) * mag == -(dy * mag)) by (nonlinear_arith);
        }
        let ox = if dx >= 0 { (dx * mag) / d } else { -(((-dx) * mag) / d) };
        let oy = if dy >= 0 { (dy * mag) / d } else { -(((-dy) * mag) / d) };
        Pos { x: ox, y: oy }
    }
}

/// Clamp a coordinate into the battlefield box.
pub open spec fn clamp_coord(v: int) -> int {
    if v < -MAX_COORD {
        -MAX_COORD as int
    } else if v > MAX_COORD {
        MAX_COORD as int
    } else {
        v
    }
}

/// `p` displaced by `off`, clamped into the battlefield box.
pub open spec fn displaced(p: Pos, off: Pos) -> Pos {
    Pos { x: clamp_coord(p.x + off.x) as i64, y: clamp_coord(p.y + off.y) as i64 }
}

/// Apply a bounded displacement, clamping at the battlefield edge.
pub fn apply_offset(p: Pos, off: Pos) -> (r: Pos)
    requires
        in_bounds(p),
        -MAX_STEP <= off.x <= MAX_STEP,
        -MAX_STEP <= off.y <= MAX_STEP,
    ensures
        r == displaced(p, off),
        in_bounds(r),
{
    let nx = p.x + off.x;
    let ny = p.y + off.y;
    let cx = if nx < -MAX_COORD { -MAX_COORD } else if nx > MAX_COORD { MAX_COORD } else { nx };
    let cy = if ny < -MAX_COORD { -MAX_COORD } else if ny > MAX_COORD { MAX_COORD } else { ny };
    Pos { x: cx, y: cy }
}

/// Midpoint of two positions, each axis rounded toward zero.
pub open spec fn midpoint(a: Pos, b: Pos) -> Pos {
    Pos { x: div_to_zero(a.x + b.x, 2) as i64, y: div_to_zero(a.y + b.y, 2) as i64 }
}

pub fn midpoint_exec(a: Pos, b: Pos) -> (r: Pos)
    requires
        in_bounds(a),
        in_bounds(b),
    ensures
        r == midpoint(a, b),
        in_bounds(r),
{
    let sx = a.x + b.x;
    let sy = a.y + b.y;
    let mx = if sx >= 0 { sx / 2 } else { -((-sx) / 2) };
    let my = if sy >= 0 { sy / 2 } else { -((-sy) / 2) };
    Pos { x: mx, y: my }
}

/// On an axis-aligned attacker-to-target line the displacement magnitude is
/// exactly the requested one: knockback moves the target by precisely the
/// configured distance, whatever the frame rate — the offset is a function
/// of the two positions and the magnitude alone.
pub proof fn lemma_offset_axis_exact(from: Pos, to: Pos, mag: int)
    requires
        in_bounds(from),
        in_bounds(to),
        0 <= mag <= MAX_STEP,
        from.y == to.y,
        from.x != to.x,
    ensures
        offset_toward(from, to, mag) == (Pos {
            x: if to.x > from.x {
                mag as i64
            } else {
                (-mag) as i64
            },
            y: 0,
        }),
{
    let dx = to.x - from.x;
    let n = dist2(from, to);
    assert(sq(to.y - from.y) == 0) by (nonlinear_arith)
        requires to.y == from.y;
    assert(sq(from.x - to.x) == dx * dx) by (nonlinear_arith)
        requires dx == to.x - from.x;
    let a = if dx >= 0 { dx } else { -dx };
    assert(a * a == dx * dx) by (nonlinear_arith)
        requires a == dx || a == -dx;
    assert(n < (a + 1) * (a + 1)) by (nonlinear_arith)
        requires n == a * a, a >= 0;
    lemma_sqrt_floor_unique(n, a);
    let d = sqrt_floor(n);
    assert(d == a);
    assert(d != 0);
    lemma_div_by_multiple(mag, d);
    assert(mag * d == d * mag) by (nonlinear_arith);
    if dx > 0 {
        assert(dx * mag == d * mag) by (nonlinear_arith)
            requires dx == d;
        assert(div_to_zero(dx * mag, d) == mag) by {
            assert(dx * mag >= 0) by (nonlinear_arith)
                requires dx >= 0, mag >= 0;
        }
    } else {
        assert((-dx) * mag == d * mag) by (nonlinear_arith)
            requires -dx == d;
        assert((-dx) * mag == -(dx * mag)) by (nonlinear_arith);
        assert(div_to_zero(dx * mag, d) == -mag) by {
            assert(dx * mag <= 0) by (nonlinear_arith)
                requires dx <= 0, mag >= 0;
            if dx * mag == 0 {
                assert(mag == 0 || dx == 0) by (nonlinear_arith)
                    requires dx * mag == 0;
            }
        }
    }
    assert(div_to_zero(0 * mag, d) == 0) by {
        assert(0 * mag == 0) by (nonlinear_arith);
        assert(0int / d == 0) by (nonlinear_arith)
            requires d > 0;
    }
}

} // verus!
