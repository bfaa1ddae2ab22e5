//! Exact 2D vectors and the normalise / clamp operations of the steering
//! rules.
//!
//! A `Vec2` holds fixed-point coordinates as plain `i64` values. The two
//! nonlinear operations every steering rule ends with are defined here:
//! `scale_to` (normalise a vector, then stretch it to a target length)
//! and `clamp_mag` (cut a vector down to a maximum length, leaving shorter
//! vectors untouched). Both use the ceiling square root, so the result
//! never exceeds the requested length — the clamp law rests on
//! `lemma_scale_to_bounds`.

use vstd::prelude::*;

use crate::fixed::ceil_sqrt;
use crate::fixed::div_t;
use crate::fixed::div_trunc;
use crate::fixed::isqrt_ceil;
use crate::fixed::lemma_ceil_sqrt;
use crate::fixed::lemma_sq_le;

verus! {

/// Largest coordinate magnitude the engine stores: positions, velocities
/// and the tunable parameters all stay within `[-COORD_LIMIT, COORD_LIMIT]`.
pub const COORD_LIMIT: i64 = 0x8000_0000;

/// Slack bound on the arguments of the vector operations; steering
/// intermediates (differences and averages of stored values) stay well
/// inside it.
pub const VEC_ARG_LIMIT: i64 = 0x10_0000_0000;

#[derive(Clone, Copy, PartialEq, Eq, Structural, Debug)]
pub struct Vec2 {
    pub x: i64,
    pub y: i64,
}

impl Vec2 {
    /// The coordinates as a pair of unbounded integers.
    pub open spec fn s(self) -> (int, int) {
        (self.x as int, self.y as int)
    }

    pub fn zero() -> (r: Vec2)
        ensures
            r.x == 0 && r.y == 0,
    {
        Vec2 { x: 0, y: 0 }
    }
}

/// Magnitude of an integer.
pub open spec fn mag(a: int) -> int {
    if a >= 0 {
        a
    } else {
        -a
    }
}

/// Squared Euclidean length.
pub open spec fn norm_sq(x: int, y: int) -> int {
    x * x + y * y
}

/// Normalise `(x, y)` and stretch it to length `s`, rounding each
/// component toward zero; the zero vector stays zero.
pub open spec fn scale_to(x: int, y: int, s: int) -> (int, int) {
    let l = ceil_sqrt(norm_sq(x, y) as nat) as int;
    if l == 0 {
        (0int, 0int)
    } else {
        (div_t(x * s, l), div_t(y * s, l))
    }
}

/// Leave `(x, y)` unchanged if its length is at most `f`; otherwise cut
/// it down to length `f`.
pub open spec fn clamp_mag(x: int, y: int, f: int) -> (int, int) {
    if norm_sq(x, y) > f * f {
        scale_to(x, y, f)
    } else {
        (x, y)
    }
}

/// The tail every steering rule shares: stretch the desired direction
/// `(dx, dy)` to the maximum speed `s`, subtract the agent's velocity,
/// and clamp the result to the maximum force `f`.
pub open spec fn steer(dx: int, dy: int, vx: int, vy: int, s: int, f: int) -> (int, int) {
    let t = scale_to(dx, dy, s);
    clamp_mag(t.0 - vx, t.1 - vy, f)
}

/// A vector scaled to length `s` has length at most `s`, in each
/// component and in norm.
pub proof fn lemma_scale_to_bounds(x: int, y: int, s: int)
    requires
        s >= 0,
    ensures
        -s <= scale_to(x, y, s).0 <= s,
        -s <= scale_to(x, y, s).1 <= s,
        norm_sq(scale_to(x, y, s).0, scale_to(x, y, s).1) <= s * s,
{
    let u = mag(x);
    let v = mag(y);
    assert(norm_sq(x, y) == u * u + v * v && u * u >= 0 && v * v >= 0) by (nonlinear_arith)
        requires
            u == mag(x),
            v == mag(y),
    ;
    let n = norm_sq(x, y) as nat;
    lemma_ceil_sqrt(n);
    let l = ceil_sqrt(n) as int;
    if l == 0 {
        assert(u == 0 && v == 0) by (nonlinear_arith)
            requires
                u >= 0,
                v >= 0,
                u * u + v * v <= 0,
        ;
        assert(scale_to(x, y, s) == (0int, 0int));
    } else {
        lemma_sq_le(u, l);
        lemma_sq_le(v, l);
        let a = (u * s) / l;
        let b = (v * s) / l;
        assert(u * s >= 0 && v * s >= 0 && u * s <= l * s && v * s <= l * s) by (nonlinear_arith)
            requires
                0 <= u <= l,
                0 <= v <= l,
                s >= 0,
        ;
        vstd::arithmetic::div_mod::lemma_div_pos_is_pos(u * s, l);
        vstd::arithmetic::div_mod::lemma_div_pos_is_pos(v * s, l);
        vstd::arithmetic::div_mod::lemma_remainder_lower(u * s, l);
        vstd::arithmetic::div_mod::lemma_remainder_lower(v * s, l);
        assert(a * l <= u * s && b * l <= v * s);
        assert(a <= s) by (nonlinear_arith)
            requires
                a >= 0,
                l >= 1,
                s >= 0,
                a * l <= u * s,
                u * s <= l * s,
        ;
        assert(b <= s) by (nonlinear_arith)
            requires
                b >= 0,
                l >= 1,
                s >= 0,
                b * l <= v * s,
                v * s <= l * s,
        ;
        assert(a * a * (l * l) <= (u * u) * (s * s)) by (nonlinear_arith)
            requires
                0 <= a,
                0 <= a * l,
                a * l <= u * s,
                0 <= u * s,
        ;
        assert(b * b * (l * l) <= (v * v) * (s * s)) by (nonlinear_arith)
            requires
                0 <= b,
                0 <= b * l,
                b * l <= v * s,
                0 <= v * s,
        ;
        assert(a * a + b * b <= s * s) by (nonlinear_arith)
            requires
                a * a * (l * l) <= (u * u) * (s * s),
                b * b * (l * l) <= (v * v) * (s * s),
                u * u + v * v <= l * l,
                0 <= u * u,
                0 <= v * v,
                0 <= a * a,
                0 <= b * b,
                l >= 1,
                0 <= s * s,
        ;
        let r = scale_to(x, y, s);
        assert(r.0 == if x >= 0 {
            a
        } else {
            -a
        } && r.1 == if y >= 0 {
            b
        } else {
            -b
        }) by (nonlinear_arith)
            requires
                l >= 1,
                u == mag(x),
                v == mag(y),
                a == (u * s) / l,
                b == (v * s) / l,
                r == (div_t(x * s, l), div_t(y * s, l)),
                div_t(x * s, l) == if x * s >= 0 {
                    (x * s) / l
                } else {
                    -((-(x * s)) / l)
                },
                div_t(y * s, l) == if y * s >= 0 {
                    (y * s) / l
                } else {
                    -((-(y * s)) / l)
                },
                s >= 0,
        ;
        assert(norm_sq(r.0, r.1) == a * a + b * b) by (nonlinear_arith)
            requires
                r.0 == a || r.0 == -a,
                r.1 == b || r.1 == -b,
        ;
    }
}

/// A clamped vector has length at most `f`, in each component and in norm.
pub proof fn lemma_clamp_mag_bounds(x: int, y: int, f: int)
    requires
        f >= 0,
    ensures
        -f <= clamp_mag(x, y, f).0 <= f,
        -f <= clamp_mag(x, y, f).1 <= f,
        norm_sq(clamp_mag(x, y, f).0, clamp_mag(x, y, f).1) <= f * f,
{
    if norm_sq(x, y) > f * f {
        lemma_scale_to_bounds(x, y, f);
    } else {
        assert(-f <= x <= f && -f <= y <= f) by (nonlinear_arith)
            requires
                x * x + y * y <= f * f,
                f >= 0,
        ;
    }
}

/// The result of `steer` never exceeds the maximum force `f`.
pub proof fn lemma_steer_bounds(dx: int, dy: int, vx: int, vy: int, s: int, f: int)
    requires
        s >= 0,
        f >= 0,
    ensures
        -f <= steer(dx, dy, vx, vy, s, f).0 <= f,
        -f <= steer(dx, dy, vx, vy, s, f).1 <= f,
        norm_sq(steer(dx, dy, vx, vy, s, f).0, steer(dx, dy, vx, vy, s, f).1) <= f * f,
{
    let t = scale_to(dx, dy, s);
    lemma_scale_to_bounds(dx, dy, s);
    lemma_clamp_mag_bounds(t.0 - vx, t.1 - vy, f);
}

/// Exact executable counterpart of `scale_to`.
pub fn scale_to_vec(x: i64, y: i64, s: i64) -> (r: Vec2)
    requires
        -VEC_ARG_LIMIT <= x <= VEC_ARG_LIMIT,
        -VEC_ARG_LIMIT <= y <= VEC_ARG_LIMIT,
        0 <= s <= COORD_LIMIT,
    ensures
        r.s() == scale_to(x as int, y as int, s as int),
        -s <= r.x <= s,
        -s <= r.y <= s,
        norm_sq(r.x as int, r.y as int) <= s * s,
{
    proof {
        lemma_scale_to_bounds(x as int, y as int, s as int);
        assert(0 <= (x as i128) * (x as i128) <= 0x1000_0000_0000_0000_0000 && 0 <= (y as i128) * (
        y as i128) <= 0x1000_0000_0000_0000_0000 && (x as i128) * (x as i128) + (y as i128) * (
        y as i128) == norm_sq(x as int, y as int)) by (nonlinear_arith)
            requires
                -VEC_ARG_LIMIT <= x <= VEC_ARG_LIMIT,
                -VEC_ARG_LIMIT <= y <= VEC_ARG_LIMIT,
        ;
    }
    let n2: i128 = (x as i128) * (x as i128) + (y as i128) * (y as i128);
    let l: u64 = isqrt_ceil(n2 as u128);
    if l == 0 {
        Vec2 { x: 0, y: 0 }
    } else {
        proof {
            assert(-0x1_0000_0000_0000_0000_0000 <= (x as i128) * (s as i128)
                <= 0x1_0000_0000_0000_0000_0000 && -0x1_0000_0000_0000_0000_0000 <= (y as i128) * (
            s as i128) <= 0x1_0000_0000_0000_0000_0000) by (nonlinear_arith)
                requires
                    -VEC_ARG_LIMIT <= x <= VEC_ARG_LIMIT,
                    -VEC_ARG_LIMIT <= y <= VEC_ARG_LIMIT,
                    0 <= s <= COORD_LIMIT,
            ;
        }
        let rx: i128 = div_trunc((x as i128) * (s as i128), l as i128);
        let ry: i128 = div_trunc((y as i128) * (s as i128), l as i128);
        Vec2 { x: rx as i64, y: ry as i64 }
    }
}

/// Exact executable counterpart of `clamp_mag`.
pub fn clamp_mag_vec(x: i64, y: i64, f: i64) -> (r: Vec2)
    requires
        -VEC_ARG_LIMIT <= x <= VEC_ARG_LIMIT,
        -VEC_ARG_LIMIT <= y <= VEC_ARG_LIMIT,
        0 <= f <= COORD_LIMIT,
    ensures
        r.s() == clamp_mag(x as int, y as int, f as int),
        -f <= r.x <= f,
        -f <= r.y <= f,
        norm_sq(r.x as int, r.y as int) <= f * f,
{
    proof {
        lemma_clamp_mag_bounds(x as int, y as int, f as int);
        assert(0 <= (x as i128) * (x as i128) <= 0x1000_0000_0000_0000_0000 && 0 <= (y as i128) * (
        y as i128) <= 0x1000_0000_0000_0000_0000 && 0 <= (f as i128) * (f as i128)
            <= 0x1000_0000_0000_0000_0000 && (x as i128) * (
        x as i128) + (y as i128) * (y as i128) == norm_sq(x as int, y as int)) by (nonlinear_arith)
            requires
                -VEC_ARG_LIMIT <= x <= VEC_ARG_LIMIT,
                -VEC_ARG_LIMIT <= y <= VEC_ARG_LIMIT,
                0 <= f <= COORD_LIMIT,
        ;
    }
    let n2: i128 = (x as i128) * (x as i128) + (y as i128) * (y as i128);
    if n2 > (f as i128) * (f as i128) {
        scale_to_vec(x, y, f)
    } else {
        Vec2 { x, y }
    }
}

/// Exact executable counterpart of `steer`.
pub fn steer_vec(dx: i64, dy: i64, vx: i64, vy: i64, s: i64, f: i64) -> (r: Vec2)
    requires
        -0x2_0000_0000 <= dx <= 0x2_0000_0000,
        -0x2_0000_0000 <= dy <= 0x2_0000_0000,
        -COORD_LIMIT <= vx <= COORD_LIMIT,
        -COORD_LIMIT <= vy <= COORD_LIMIT,
        0 <= s <= COORD_LIMIT,
        0 <= f <= COORD_LIMIT,
    ensures
        r.s() == steer(dx as int, dy as int, vx as int, vy as int, s as int, f as int),
        -f <= r.x <= f,
        -f <= r.y <= f,
        norm_sq(r.x as int, r.y as int) <= f * f,
{
    let t = scale_to_vec(dx, dy, s);
    clamp_mag_vec(t.x - vx, t.y - vy, f)
}

} // verus!
