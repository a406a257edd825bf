//! Motion interpolator: advances an entity's rendered position toward its
//! target once per animation tick. Speed scales with the remaining
//! distance (an exponential-decay-shaped approach), and a step is never
//! longer than the remaining distance, so the motion never overshoots.

use vstd::prelude::*;
use vstd::arithmetic::div_mod::{lemma_div_is_ordered, lemma_div_multiples_vanish, lemma_div_pos_is_pos};

verus! {

/// Reciprocal of the speed factor: each millisecond an entity covers
/// 1/100 of its remaining distance (factor 0.01 per ms).
pub const SPEED_DIVISOR: u64 = 100;

/// Distance under which the entity is considered arrived, in milli-pixels.
pub const STOP_RADIUS_MILLI_PX: u64 = 0;

/// Coordinates are kept within this many milli-pixels of the origin so
/// squared distances fit the machine word.
pub const COORD_LIMIT_MILLI_PX: i64 = 0x4000_0000;

/// A point of the drawing surface in milli-pixels.
#[derive(Clone, Copy, PartialEq, Eq, Structural, Debug)]
pub struct Pos {
    pub x_milli_px: i64,
    pub y_milli_px: i64,
}

/// Coordinates within the surface bound.
pub open spec fn in_bounds(p: Pos) -> bool {
    -COORD_LIMIT_MILLI_PX <= p.x_milli_px <= COORD_LIMIT_MILLI_PX
        && -COORD_LIMIT_MILLI_PX <= p.y_milli_px <= COORD_LIMIT_MILLI_PX
}

/// Squared euclidean distance between two points.
pub open spec fn spec_dist2(a: Pos, b: Pos) -> int {
    let dx = b.x_milli_px - a.x_milli_px;
    let dy = b.y_milli_px - a.y_milli_px;
    dx * dx + dy * dy
}

/// The integer square root: the unique `r` with `r * r <= n < (r + 1) * (r + 1)`.
pub closed spec fn spec_isqrt(n: nat) -> nat {
    choose|r: nat| #[trigger] (r * r) <= n < (r + 1) * (r + 1)
}

/// Two integer square roots of the same number are equal.
proof fn lemma_isqrt_unique(n: nat, r1: nat, r2: nat)
    requires
        r1 * r1 <= n < (r1 + 1) * (r1 + 1),
        r2 * r2 <= n < (r2 + 1) * (r2 + 1),
    ensures
        r1 == r2,
{
    if r1 < r2 {
        assert((r1 + 1) * (r1 + 1) <= r2 * r2) by (nonlinear_arith)
            requires
                r1 + 1 <= r2,
        ;
    }
    if r2 < r1 {
        assert((r2 + 1) * (r2 + 1) <= r1 * r1) by (nonlinear_arith)
            requires
                r2 + 1 <= r1,
        ;
    }
}

/// A witness pins `spec_isqrt` down.
proof fn lemma_isqrt_is(n: nat, r: nat)
    requires
        r * r <= n < (r + 1) * (r + 1),
    ensures
        spec_isqrt(n) == r,
{
    assert(exists|q: nat| #[trigger] (q * q) <= n < (q + 1) * (q + 1)) by {
        assert(r * r <= n < (r + 1) * (r + 1));
    }
    lemma_isqrt_unique(n, spec_isqrt(n), r);
}

/// Integer square root by bisection.
pub fn isqrt(n: u64) -> (r: u64)
    ensures
        r * r <= n,
        n < (r + 1) * (r + 1),
        r == spec_isqrt(n as nat),
        r < 0x1_0000_0000u64,
{
    let mut lo: u64 = 0;
    let mut hi: u64 = 0x1_0000_0000;
    assert(hi * hi > n);
    while hi - lo > 1
        invariant
            lo < hi <= 0x1_0000_0000,
            lo * lo <= n,
            hi * hi > n,
        decreases hi - lo,
    {
        let mid = lo + (hi - lo) / 2;
        assert(mid * mid <= u64::MAX) by (nonlinear_arith)
            requires
                mid < 0x1_0000_0000u64,
        ;
        if mid * mid <= n {
            lo = mid;
        } else {
            hi = mid;
        }
    }
    proof {
        lemma_isqrt_is(n as nat, lo as nat);
    }
    lo
}

/// Magnitude of a signed offset.
fn abs_i64(v: i64) -> (r: u64)
    requires
        v > i64::MIN,
    ensures
        r == vstd::math::abs(v as int),
{
    if v >= 0 {
        v as u64
    } else {
        (-v) as u64
    }
}

/// Euclidean distance from `a` to `b` in milli-pixels, rounded down.
pub fn euclid_dist_milli(a: Pos, b: Pos) -> (r: u64)
    requires
        in_bounds(a),
        in_bounds(b),
    ensures
        r == spec_isqrt(spec_dist2(a, b) as nat),
        r < 0x1_0000_0000u64,
{
    let dx: i64 = b.x_milli_px - a.x_milli_px;
    let dy: i64 = b.y_milli_px - a.y_milli_px;
    let adx: u64 = abs_i64(dx);
    let ady: u64 = abs_i64(dy);
    assert(adx * adx + ady * ady <= u64::MAX && adx * adx + ady * ady == spec_dist2(a, b))
        by (nonlinear_arith)
        requires
            adx == (if dx >= 0 { dx as int } else { -(dx as int) }),
            ady == (if dy >= 0 { dy as int } else { -(dy as int) }),
            adx <= 0x8000_0000u64,
            ady <= 0x8000_0000u64,
            dx == b.x_milli_px - a.x_milli_px,
            dy == b.y_milli_px - a.y_milli_px,
    ;
    isqrt(adx * adx + ady * ady)
}

/// An entity's speed scalar for one tick, handed to the audio mapper:
/// the remaining distance scaled by the speed factor, and zero on a tick
/// that moves nothing (no elapsed time, or already at the stop radius).
pub open spec fn spec_speed_scalar(cur: Pos, tgt: Pos, dt: u64) -> u64 {
    let dist = spec_isqrt(spec_dist2(cur, tgt) as nat);
    if dt > 0 && dist > STOP_RADIUS_MILLI_PX {
        (dist / (SPEED_DIVISOR as nat)) as u64
    } else {
        0u64
    }
}

/// Computes an entity's speed scalar for one tick.
pub fn speed_scalar_milli(cur: Pos, tgt: Pos, dt_ms: u64) -> (r: u64)
    requires
        in_bounds(cur),
        in_bounds(tgt),
    ensures
        r == spec_speed_scalar(cur, tgt, dt_ms),
{
    let dist = euclid_dist_milli(cur, tgt);
    if dt_ms > 0 && dist > STOP_RADIUS_MILLI_PX {
        dist / SPEED_DIVISOR
    } else {
        0
    }
}

/// Length of one tick's step toward a target at distance `dist` after
/// `dt` milliseconds: proportional speed, capped at the remaining
/// distance itself.
pub open spec fn spec_step_len(dist: nat, dt: nat) -> nat {
    let by_speed = (dist * dt) / (SPEED_DIVISOR as nat);
    if by_speed > dist {
        dist
    } else {
        by_speed
    }
}

/// Where one tick moves an entity rendered at `cur` whose target is
/// `tgt`, after `dt` milliseconds. At or under the stop radius, or with
/// no elapsed time, the entity stays put; otherwise it moves along the
/// line toward the target by the step length, each component displaced
/// in proportion (rounded toward zero).
pub open spec fn spec_interp_step(cur: Pos, tgt: Pos, dt: u64) -> Pos {
    let dist2 = spec_dist2(cur, tgt) as nat;
    let dist = spec_isqrt(dist2);
    if dist <= STOP_RADIUS_MILLI_PX || dt == 0 {
        cur
    } else {
        let step = spec_step_len(dist, dt as nat);
        let dx = tgt.x_milli_px - cur.x_milli_px;
        let dy = tgt.y_milli_px - cur.y_milli_px;
        let mx = ((vstd::math::abs(dx) * step) as int) / (dist as int);
        let my = ((vstd::math::abs(dy) * step) as int) / (dist as int);
        Pos {
            x_milli_px: (if dx >= 0 { cur.x_milli_px + mx } else { cur.x_milli_px - mx }) as i64,
            y_milli_px: (if dy >= 0 { cur.y_milli_px + my } else { cur.y_milli_px - my }) as i64,
        }
    }
}

/// A component moved by at most the full gap never leaves the closed
/// interval between where it was and its target.
pub open spec fn component_between(c: int, n: int, t: int) -> bool {
    (c <= t ==> c <= n <= t) && (t <= c ==> t <= n <= c)
}

/// The interpolation step never overshoots: each rendered coordinate
/// stays between its old value and the target, so the distance to the
/// target never grows; and with no elapsed time or an already-reached
/// target nothing moves.
pub proof fn lemma_no_overshoot(cur: Pos, tgt: Pos, dt: u64)
    requires
        in_bounds(cur),
        in_bounds(tgt),
    ensures
        component_between(
            cur.x_milli_px as int,
            spec_interp_step(cur, tgt, dt).x_milli_px as int,
            tgt.x_milli_px as int,
        ),
        component_between(
            cur.y_milli_px as int,
            spec_interp_step(cur, tgt, dt).y_milli_px as int,
            tgt.y_milli_px as int,
        ),
        spec_dist2(spec_interp_step(cur, tgt, dt), tgt) <= spec_dist2(cur, tgt),
        spec_dist2(spec_interp_step(cur, tgt, dt), tgt) >= 0,
        dt == 0 ==> spec_interp_step(cur, tgt, dt) == cur,
        cur == tgt ==> spec_interp_step(cur, tgt, dt) == cur,
{
    let r = spec_interp_step(cur, tgt, dt);
    let gdx = tgt.x_milli_px - cur.x_milli_px;
    let gdy = tgt.y_milli_px - cur.y_milli_px;
    assert(gdx * gdx >= 0 && gdy * gdy >= 0) by (nonlinear_arith);
    let dist2 = spec_dist2(cur, tgt) as nat;
    let dist = spec_isqrt(dist2);
    assert(dist * dist <= dist2 < (dist + 1) * (dist + 1)) by {
        lemma_isqrt_exists(dist2);
    }
    if cur == tgt {
        assert(gdx * gdx == 0 && gdy * gdy == 0) by (nonlinear_arith)
            requires
                gdx == 0,
                gdy == 0,
        ;
        assert(dist == 0) by (nonlinear_arith)
            requires
                dist * dist <= dist2 < (dist + 1) * (dist + 1),
                dist2 == 0,
        ;
    }
    if !(dist <= STOP_RADIUS_MILLI_PX || dt == 0) {
        let step = spec_step_len(dist, dt as nat);
        let dx = tgt.x_milli_px - cur.x_milli_px;
        let dy = tgt.y_milli_px - cur.y_milli_px;
        let mx = ((vstd::math::abs(dx) * step) as int) / (dist as int);
        let my = ((vstd::math::abs(dy) * step) as int) / (dist as int);
        assert(step <= dist);
        lemma_move_bounded(vstd::math::abs(dx) as int, step as int, dist as int);
        lemma_move_bounded(vstd::math::abs(dy) as int, step as int, dist as int);
        assert(0 <= mx <= vstd::math::abs(dx));
        assert(0 <= my <= vstd::math::abs(dy));
        lemma_shrink2(cur.x_milli_px as int, r.x_milli_px as int, tgt.x_milli_px as int);
        lemma_shrink2(cur.y_milli_px as int, r.y_milli_px as int, tgt.y_milli_px as int);
    } else {
        lemma_shrink2(cur.x_milli_px as int, r.x_milli_px as int, tgt.x_milli_px as int);
        lemma_shrink2(cur.y_milli_px as int, r.y_milli_px as int, tgt.y_milli_px as int);
    }
    let ndx = tgt.x_milli_px - r.x_milli_px;
    let ndy = tgt.y_milli_px - r.y_milli_px;
    assert(ndx * ndx >= 0 && ndy * ndy >= 0) by (nonlinear_arith);
}

/// Every natural number has an integer square root.
proof fn lemma_isqrt_exists(n: nat)
    ensures
        spec_isqrt(n) * spec_isqrt(n) <= n < (spec_isqrt(n) + 1) * (spec_isqrt(n) + 1),
    decreases n,
{
    if n == 0 {
        assert(0 * 0 <= n < (0 + 1) * (0 + 1)) by (nonlinear_arith)
            requires
                n == 0,
        ;
        lemma_isqrt_is(n, 0);
    } else {
        lemma_isqrt_exists((n - 1) as nat);
        let p = spec_isqrt((n - 1) as nat);
        assert(p * p <= n - 1 < (p + 1) * (p + 1));
        if (p + 1) * (p + 1) <= n {
            assert(n == (p + 1) * (p + 1));
            assert((p + 1) * (p + 1) < (p + 2) * (p + 2)) by (nonlinear_arith);
            lemma_isqrt_is(n, p + 1);
        } else {
            lemma_isqrt_is(n, p);
        }
    }
}

/// Moving `a * step / dist` with `step <= dist` covers at most `a`.
proof fn lemma_move_bounded(a: int, step: int, dist: int)
    requires
        0 <= a,
        0 <= step <= dist,
        0 < dist,
    ensures
        0 <= (a * step) / dist <= a,
{
    assert(a * step >= 0) by (nonlinear_arith)
        requires
            a >= 0,
            step >= 0,
    ;
    assert(a * step <= dist * a) by (nonlinear_arith)
        requires
            a >= 0,
            step <= dist,
    ;
    lemma_div_pos_is_pos(a * step, dist);
    lemma_div_is_ordered(a * step, dist * a, dist);
    lemma_div_multiples_vanish(a, dist);
}

/// A coordinate that stays between its old value and the target has a
/// squared gap to the target no larger than before.
proof fn lemma_shrink2(c: int, n: int, t: int)
    requires
        component_between(c, n, t),
    ensures
        (t - n) * (t - n) <= (t - c) * (t - c),
{
    assert((t - n) * (t - n) <= (t - c) * (t - c)) by (nonlinear_arith)
        requires
            (c <= t ==> c <= n <= t) && (t <= c ==> t <= n <= c),
    ;
}

/// One interpolation tick for one entity.
pub fn interp_step(cur: Pos, tgt: Pos, dt_ms: u64) -> (r: Pos)
    requires
        in_bounds(cur),
        in_bounds(tgt),
    ensures
        r == spec_interp_step(cur, tgt, dt_ms),
        in_bounds(r),
{
    proof {
        lemma_no_overshoot(cur, tgt, dt_ms);
    }
    let dist = euclid_dist_milli(cur, tgt);
    if dist <= STOP_RADIUS_MILLI_PX || dt_ms == 0 {
        return cur;
    }
    let step: u64 = if dt_ms >= SPEED_DIVISOR {
        proof {
            let d = dist as int;
            let t = dt_ms as int;
            assert(100 * d <= d * t) by (nonlinear_arith)
                requires
                    d >= 0,
                    t >= 100,
            ;
            lemma_div_multiples_vanish(d, 100);
            lemma_div_is_ordered(100 * d, d * t, 100);
            assert(spec_step_len(dist as nat, dt_ms as nat) == dist);
        }
        dist
    } else {
        assert(dist * dt_ms <= u64::MAX) by (nonlinear_arith)
            requires
                dist < 0x1_0000_0000u64,
                dt_ms < 100,
        ;
        let by_speed = (dist * dt_ms) / SPEED_DIVISOR;
        if by_speed > dist {
            dist
        } else {
            by_speed
        }
    };
    assert(step == spec_step_len(dist as nat, dt_ms as nat));
    assert(step <= dist);
    let dx: i64 = tgt.x_milli_px - cur.x_milli_px;
    let dy: i64 = tgt.y_milli_px - cur.y_milli_px;
    let adx: u64 = abs_i64(dx);
    let ady: u64 = abs_i64(dy);
    proof {
        assert(adx * step <= u64::MAX && ady * step <= u64::MAX) by (nonlinear_arith)
            requires
                adx <= 0x8000_0000u64,
                ady <= 0x8000_0000u64,
                step < 0x1_0000_0000u64,
        ;
        lemma_move_bounded(adx as int, step as int, dist as int);
        lemma_move_bounded(ady as int, step as int, dist as int);
    }
    let mx: u64 = (adx * step) / dist;
    let my: u64 = (ady * step) / dist;
    let nx: i64 = if dx >= 0 {
        cur.x_milli_px + mx as i64
    } else {
        cur.x_milli_px - mx as i64
    };
    let ny: i64 = if dy >= 0 {
        cur.y_milli_px + my as i64
    } else {
        cur.y_milli_px - my as i64
    };
    Pos { x_milli_px: nx, y_milli_px: ny }
}

} // verus!
