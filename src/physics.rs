//! Per-tick player physics: steering toward a target velocity at a capped
//! rate, gravity once the run has started, the tube wall's push-back and
//! bounce, integration of position, and coin pickup.
//!
//! Lengths are integer units, velocities are units per second, and a tick's
//! duration is given in milliseconds.
use vstd::prelude::*;
use crate::arith::{abs, lemma_mul_abs_bound};
use crate::geom::{Vec2, Vec3, len2_xy};

verus! {

/// Milliseconds per second.
pub const MILLIS: i64 = 1000;

/// Largest magnitude of a cross-section coordinate, a radius or a speed.
pub const PHYS_LIMIT: i64 = 0x4000_0000;

/// Largest magnitude of a depth.
pub const DEPTH_RANGE: i64 = 0x100_0000_0000;

/// Longest tick, in milliseconds.
pub const TICK_LIMIT: i64 = 1000;

/// Smallest `r` with `r * r >= n`.
pub open spec fn is_ceil_sqrt(n: int, r: int) -> bool {
    0 <= r && n <= r * r && (r == 0 || (r - 1) * (r - 1) < n)
}

/// Smallest integer whose square is at least `n`.
pub fn ceil_sqrt(n: u64) -> (r: u64)
    ensures
        is_ceil_sqrt(n as int, r as int),
        r <= 0x1_0000_0000,
{
    let mut lo: u64 = 0;
    let mut hi: u64 = 0x1_0000_0000;
    proof {
        assert(0x1_0000_0000 * 0x1_0000_0000 > u64::MAX) by (nonlinear_arith);
    }
    while lo < hi
        invariant
            lo <= hi <= 0x1_0000_0000,
            n <= hi as int * hi as int,
            lo == 0 || (lo - 1) * (lo - 1) < n,
        decreases hi - lo,
    {
        let mid = lo + (hi - lo) / 2;
        proof {
            lemma_mul_abs_bound(mid as int, mid as int, 0x1_0000_0000, 0x1_0000_0000);
        }
        if (mid as u128) * (mid as u128) >= n as u128 {
            hi = mid;
        } else {
            lo = mid + 1;
        }
    }
    lo
}

/// The player's kinematic state.
#[derive(Clone, Copy, Debug, PartialEq, Eq, Structural)]
pub struct Body {
    pub pos: Vec3,
    pub vel: Vec3,
    pub radius: i64,
}

/// Tuning values of the player's motion.
#[derive(Clone, Copy, Debug)]
pub struct Motion {
    pub tube_radius: i64,
    pub fall_speed: i64,
    pub fall_acceleration: i64,
    pub fall_slow_acceleration: i64,
    pub acceleration: i64,
    pub bounce_speed: i64,
    /// Gravity waits for the run to start; when false it acts from the first tick.
    pub gravity_after_start: bool,
}

/// A body within the bounds of the physics.
pub open spec fn body_ok(b: Body) -> bool {
    &&& -PHYS_LIMIT <= b.pos.x <= PHYS_LIMIT
    &&& -PHYS_LIMIT <= b.pos.y <= PHYS_LIMIT
    &&& -DEPTH_RANGE <= b.pos.z <= DEPTH_RANGE
    &&& -PHYS_LIMIT <= b.vel.x <= PHYS_LIMIT
    &&& -PHYS_LIMIT <= b.vel.y <= PHYS_LIMIT
    &&& -PHYS_LIMIT <= b.vel.z <= PHYS_LIMIT
    &&& 0 < b.radius <= PHYS_LIMIT
}

/// Tuning values within bounds.
pub open spec fn motion_ok(m: Motion) -> bool {
    &&& 0 < m.tube_radius <= PHYS_LIMIT
    &&& 0 <= m.fall_speed <= PHYS_LIMIT
    &&& 0 <= m.fall_acceleration <= PHYS_LIMIT
    &&& 0 <= m.fall_slow_acceleration <= PHYS_LIMIT
    &&& 0 <= m.acceleration <= PHYS_LIMIT
    &&& 0 <= m.bounce_speed <= PHYS_LIMIT
}

/// Gravity's change of the vertical velocity over `dt` milliseconds: the full
/// fall acceleration while the fall is no faster than `fall_speed`, the slow one
/// beyond it, and none before the run has started where gravity waits for it.
pub open spec fn gravity_dv(vz: int, started: bool, m: Motion, dt: int) -> int {
    if !started && m.gravity_after_start {
        0
    } else if (if vz < 0 { -vz } else { vz }) > m.fall_speed {
        -(m.fall_slow_acceleration * dt / MILLIS as int)
    } else {
        -(m.fall_acceleration * dt / MILLIS as int)
    }
}

/// Applies gravity to the vertical velocity.
pub fn apply_gravity(vz: i64, started: bool, m: &Motion, dt: i64) -> (r: i64)
    requires
        motion_ok(*m),
        -PHYS_LIMIT <= vz <= PHYS_LIMIT,
        0 <= dt <= TICK_LIMIT,
    ensures
        r == vz + gravity_dv(vz as int, started, *m, dt as int),
{
    if !started && m.gravity_after_start {
        return vz;
    }
    let a = if (if vz < 0 { -vz } else { vz }) > m.fall_speed {
        m.fall_slow_acceleration
    } else {
        m.fall_acceleration
    };
    proof {
        lemma_mul_abs_bound(a as int, dt as int, PHYS_LIMIT as int, TICK_LIMIT as int);
        assert(a * dt / MILLIS as int <= PHYS_LIMIT * TICK_LIMIT) by (nonlinear_arith)
            requires
                0 <= a * dt <= PHYS_LIMIT * TICK_LIMIT,
        ;
    }
    vz - a * dt / MILLIS
}

/// The largest depth of the player's surface into the tube wall is positive:
/// the center lies further from the axis than `tube_radius - radius`.
pub open spec fn penetrates(pos: Vec3, radius: int, tube_radius: int) -> bool {
    let d = tube_radius - radius;
    d < 0 || len2_xy(pos.x as int, pos.y as int) > d * d
}

/// `v * num / den`, rounded toward zero.
pub open spec fn scale_toward_zero(v: int, num: int, den: int) -> int {
    if v < 0 {
        -((-v) * num / den)
    } else {
        v * num / den
    }
}

/// `v * num / den`, rounded away from zero.
pub open spec fn scale_away(v: int, num: int, den: int) -> int {
    if v < 0 {
        -(((-v) * num + den - 1) / den)
    } else {
        (v * num + den - 1) / den
    }
}

/// The smallest integer whose square is at least `n`.
pub open spec fn ceil_sqrt_of(n: int) -> int {
    choose|r: int| is_ceil_sqrt(n, r)
}

pub(crate) proof fn lemma_ceil_sqrt_unique(n: int, c: int)
    requires
        is_ceil_sqrt(n, c),
    ensures
        ceil_sqrt_of(n) == c,
{
    let r = ceil_sqrt_of(n);
    assert(is_ceil_sqrt(n, r));
    if r < c {
        assert(r * r <= (c - 1) * (c - 1)) by (nonlinear_arith)
            requires
                0 <= r <= c - 1,
        ;
    } else if c < r {
        assert(c * c <= (r - 1) * (r - 1)) by (nonlinear_arith)
            requires
                0 <= c <= r - 1,
        ;
    }
}

proof fn lemma_away_bound(v: int, num: int, den: int, l: int)
    requires
        num >= 0,
        den > 0,
        -l <= v <= l,
    ensures
        -(l * num) <= scale_away(v, num, den) <= l * num,
{
    let a = if v < 0 { -v } else { v };
    let t = a * num + den - 1;
    let q = t / den;
    vstd::arithmetic::div_mod::lemma_fundamental_div_mod(t, den);
    vstd::arithmetic::div_mod::lemma_mod_pos_bound(t, den);
    assert(a * num >= 0) by (nonlinear_arith)
        requires
            a >= 0,
            num >= 0,
    ;
    assert(0 <= q <= a * num) by (nonlinear_arith)
        requires
            den * q + t % den == t,
            0 <= t % den < den,
            t == a * num + den - 1,
            a * num >= 0,
            den > 0,
    ;
    assert(a * num <= l * num) by (nonlinear_arith)
        requires
            0 <= a <= l,
            num >= 0,
    ;
}

/// A speed component saturated to the physics' bounds.
pub open spec fn saturate(v: int) -> int {
    if v > PHYS_LIMIT {
        PHYS_LIMIT as int
    } else if v < -PHYS_LIMIT {
        -PHYS_LIMIT as int
    } else {
        v
    }
}

proof fn lemma_toward_zero(v: int, num: int, den: int)
    requires
        num >= 0,
        den > 0,
    ensures
        scale_toward_zero(v, num, den) * scale_toward_zero(v, num, den) * (den * den) <= v * v * (
        num * num),
{
    let a = if v < 0 { -v } else { v };
    let q = a * num / den;
    vstd::arithmetic::div_mod::lemma_fundamental_div_mod(a * num, den);
    vstd::arithmetic::div_mod::lemma_mod_pos_bound(a * num, den);
    assert(a * num >= 0) by (nonlinear_arith)
        requires
            a >= 0,
            num >= 0,
    ;
    assert(0 <= q) by (nonlinear_arith)
        requires
            den * q + (a * num) % den == a * num,
            0 <= (a * num) % den < den,
            a * num >= 0,
            den > 0,
    ;
    assert(q * den <= a * num) by (nonlinear_arith)
        requires
            den * q + (a * num) % den == a * num,
            0 <= (a * num) % den,
    ;
    assert(q * q * (den * den) <= a * a * (num * num)) by (nonlinear_arith)
        requires
            0 <= q * den <= a * num,
            q >= 0,
            den > 0,
    ;
    assert(v * v == a * a) by (nonlinear_arith)
        requires
            a == (if v < 0 { -v } else { v }),
    ;
    assert(scale_toward_zero(v, num, den) * scale_toward_zero(v, num, den) == q * q) by (nonlinear_arith)
        requires
            scale_toward_zero(v, num, den) == q || scale_toward_zero(v, num, den) == -q,
    ;
}

proof fn lemma_toward_zero_lower(v: int, num: int, den: int)
    requires
        num >= 0,
        den > 0,
    ensures
        ((if scale_toward_zero(v, num, den) < 0 { -scale_toward_zero(v, num, den) } else { scale_toward_zero(v, num, den) }) + 1) * den
            > (if v < 0 { -v } else { v }) * num,
        (if scale_toward_zero(v, num, den) < 0 { -scale_toward_zero(v, num, den) } else { scale_toward_zero(v, num, den) }) >= 0,
{
    let a = if v < 0 { -v } else { v };
    let q = a * num / den;
    vstd::arithmetic::div_mod::lemma_fundamental_div_mod(a * num, den);
    vstd::arithmetic::div_mod::lemma_mod_pos_bound(a * num, den);
    assert(a * num >= 0) by (nonlinear_arith)
        requires
            a >= 0,
            num >= 0,
    ;
    assert(0 <= q) by (nonlinear_arith)
        requires
            den * q + (a * num) % den == a * num,
            0 <= (a * num) % den < den,
            a * num >= 0,
            den > 0,
    ;
    assert((q + 1) * den > a * num) by (nonlinear_arith)
        requires
            den * q + (a * num) % den == a * num,
            (a * num) % den < den,
    ;
}

proof fn lemma_away(v: int, num: int, den: int)
    requires
        num >= 0,
        den > 0,
    ensures
        v * scale_away(v, num, den) * den >= v * v * num,
{
    let a = if v < 0 { -v } else { v };
    let t = a * num + den - 1;
    let q = t / den;
    vstd::arithmetic::div_mod::lemma_fundamental_div_mod(t, den);
    vstd::arithmetic::div_mod::lemma_mod_pos_bound(t, den);
    assert(a * num >= 0) by (nonlinear_arith)
        requires
            a >= 0,
            num >= 0,
    ;
    assert(q * den >= a * num) by (nonlinear_arith)
        requires
            den * q + t % den == t,
            t % den < den,
            t == a * num + den - 1,
    ;
    assert(v * scale_away(v, num, den) == a * q) by (nonlinear_arith)
        requires
            a == (if v < 0 { -v } else { v }),
            scale_away(v, num, den) == (if v < 0 { -q } else { q }),
    ;
    assert(a * q * den >= a * a * num) by (nonlinear_arith)
        requires
            q * den >= a * num,
            a >= 0,
    ;
    assert(v * v == a * a) by (nonlinear_arith)
        requires
            a == (if v < 0 { -v } else { v }),
    ;
}

fn toward_zero(v: i128, num: i128, den: i128) -> (r: i128)
    requires
        -0x8000_0000 <= v <= 0x8000_0000,
        0 <= num <= 0x1_0000_0000_0000_0000,
        den > 0,
    ensures
        r == scale_toward_zero(v as int, num as int, den as int),
{
    proof {
        lemma_mul_abs_bound(v as int, num as int, 0x8000_0000, 0x1_0000_0000_0000_0000);
        lemma_mul_abs_bound(-v as int, num as int, 0x8000_0000, 0x1_0000_0000_0000_0000);
    }
    if v < 0 {
        -((-v) * num / den)
    } else {
        v * num / den
    }
}

fn away(v: i128, num: i128, den: i128) -> (r: i128)
    requires
        -0x8000_0000 <= v <= 0x8000_0000,
        0 <= num <= 0x1_0000_0000_0000_0000,
        0 < den <= 0x1_0000_0000_0000_0000,
    ensures
        r == scale_away(v as int, num as int, den as int),
{
    proof {
        lemma_mul_abs_bound(v as int, num as int, 0x8000_0000, 0x1_0000_0000_0000_0000);
        lemma_mul_abs_bound(-v as int, num as int, 0x8000_0000, 0x1_0000_0000_0000_0000);
    }
    if v < 0 {
        -(((-v) * num + den - 1) / den)
    } else {
        (v * num + den - 1) / den
    }
}

fn saturate_exec(v: i128) -> (r: i64)
    ensures
        r == saturate(v as int),
{
    if v > PHYS_LIMIT as i128 {
        PHYS_LIMIT
    } else if v < -PHYS_LIMIT as i128 {
        -PHYS_LIMIT
    } else {
        v as i64
    }
}

/// The tube wall's response to a body at `b`: with no penetration nothing
/// changes. Otherwise the center is pulled toward the axis to distance
/// `tube_radius - radius` (each coordinate scaled by that distance over the
/// rounded-up distance from the axis, rounded toward zero); and if the body
/// moves outward, its velocity gains, along the inward normal, enough to leave
/// the wall at `bounce_speed` (rounded away from the axis, saturated).
pub open spec fn tube_response(b: Body, m: Motion, c: int) -> (Body, bool) {
    let d = m.tube_radius - b.radius;
    let x = b.pos.x as int;
    let y = b.pos.y as int;
    let n2 = len2_xy(x, y);
    let q = -(x * b.vel.x + y * b.vel.y);
    let a = m.bounce_speed * c - q;
    let pos = Vec3 {
        x: scale_toward_zero(x, d, c) as i64,
        y: scale_toward_zero(y, d, c) as i64,
        z: b.pos.z,
    };
    if !penetrates(b.pos, b.radius as int, m.tube_radius as int) {
        (b, false)
    } else if q < 0 {
        (
            Body {
                pos,
                vel: Vec3 {
                    x: saturate(b.vel.x + scale_away(-x, a, n2)) as i64,
                    y: saturate(b.vel.y + scale_away(-y, a, n2)) as i64,
                    z: b.vel.z,
                },
                radius: b.radius,
            },
            true,
        )
    } else {
        (Body { pos, vel: b.vel, radius: b.radius }, false)
    }
}

/// Resolves a body's contact with the tube wall; the flag tells whether it bounced.
pub fn tube_collide(b: Body, m: &Motion) -> (r: (Body, bool))
    requires
        body_ok(b),
        motion_ok(*m),
        b.radius < m.tube_radius,
    ensures
        r == tube_response(b, *m, ceil_sqrt_of(len2_xy(b.pos.x as int, b.pos.y as int))),
        body_ok(r.0),
        len2_xy(r.0.pos.x as int, r.0.pos.y as int) <= (m.tube_radius - b.radius) * (m.tube_radius
            - b.radius),
{
    let d: i64 = m.tube_radius - b.radius;
    let x = b.pos.x as i128;
    let y = b.pos.y as i128;
    proof {
        lemma_mul_abs_bound(x as int, x as int, PHYS_LIMIT as int, PHYS_LIMIT as int);
        lemma_mul_abs_bound(y as int, y as int, PHYS_LIMIT as int, PHYS_LIMIT as int);
        lemma_mul_abs_bound(d as int, d as int, PHYS_LIMIT as int, PHYS_LIMIT as int);
        lemma_mul_abs_bound(x as int, b.vel.x as int, PHYS_LIMIT as int, PHYS_LIMIT as int);
        lemma_mul_abs_bound(y as int, b.vel.y as int, PHYS_LIMIT as int, PHYS_LIMIT as int);
    }
    let n2: i128 = x * x + y * y;
    if n2 <= d as i128 * d as i128 {
        return (b, false);
    }
    let c = ceil_sqrt(n2 as u64);
    proof {
        lemma_ceil_sqrt_unique(n2 as int, c as int);
        assert(c > 0) by (nonlinear_arith)
            requires
                n2 <= c * c,
                n2 > 0,
        ;
    }
    let c = c as i128;
    let px = toward_zero(x, d as i128, c);
    let py = toward_zero(y, d as i128, c);
    proof {
        lemma_toward_zero(x as int, d as int, c as int);
        lemma_toward_zero(y as int, d as int, c as int);
        assert(px * px <= x * x && py * py <= y * y) by (nonlinear_arith)
            requires
                px * px * (c * c) <= x * x * (d * d),
                py * py * (c * c) <= y * y * (d * d),
                d * d < c * c,
                d >= 1,
        ;
        assert(-PHYS_LIMIT <= px <= PHYS_LIMIT && -PHYS_LIMIT <= py <= PHYS_LIMIT) by (nonlinear_arith)
            requires
                px * px <= x * x,
                py * py <= y * y,
                -PHYS_LIMIT <= x <= PHYS_LIMIT,
                -PHYS_LIMIT <= y <= PHYS_LIMIT,
        ;
        assert(px * px + py * py <= d * d) by (nonlinear_arith)
            requires
                px * px * (c * c) <= x * x * (d * d),
                py * py * (c * c) <= y * y * (d * d),
                x * x + y * y <= c * c,
                c > 0,
        ;
    }
    let pos = Vec3 { x: px as i64, y: py as i64, z: b.pos.z };
    let q: i128 = -(x * b.vel.x as i128 + y * b.vel.y as i128);
    if q < 0 {
        proof {
            lemma_mul_abs_bound(m.bounce_speed as int, c as int, PHYS_LIMIT as int, 0x1_0000_0000);
        }
        let a = m.bounce_speed as i128 * c - q;
        let dx = away(-x, a, n2);
        let dy = away(-y, a, n2);
        proof {
            lemma_away_bound(-x as int, a as int, n2 as int, PHYS_LIMIT as int);
            lemma_away_bound(-y as int, a as int, n2 as int, PHYS_LIMIT as int);
            lemma_mul_abs_bound(PHYS_LIMIT as int, a as int, PHYS_LIMIT as int, 0x1_0000_0000_0000_0000);
        }
        let vel = Vec3 {
            x: saturate_exec(b.vel.x as i128 + dx),
            y: saturate_exec(b.vel.y as i128 + dy),
            z: b.vel.z,
        };
        (Body { pos, vel, radius: b.radius }, true)
    } else {
        (Body { pos, vel: b.vel, radius: b.radius }, false)
    }
}

/// Once the wall has responded to a penetrating body, the body's center lies
/// within `tube_radius - radius` of the axis, and, up to one unit of rounding
/// per coordinate, no nearer than that distance times `(c - 1) / c`, where `c`
/// is the rounded-up distance it had; and a body that bounced leaves the
/// wall: its velocity's component along the inward normal is at least
/// `bounce_speed`, unless a velocity component saturated.
pub proof fn lemma_tube_push_back(b: Body, m: Motion, c: int)
    requires
        body_ok(b),
        motion_ok(m),
        b.radius < m.tube_radius,
        penetrates(b.pos, b.radius as int, m.tube_radius as int),
        is_ceil_sqrt(len2_xy(b.pos.x as int, b.pos.y as int), c),
    ensures
        ({
            let (r, bounced) = tube_response(b, m, c);
            let d = m.tube_radius - b.radius;
            let x = b.pos.x as int;
            let y = b.pos.y as int;
            let q = -(x * b.vel.x + y * b.vel.y);
            &&& len2_xy(r.pos.x as int, r.pos.y as int) <= d * d
            &&& c * c * len2_xy(abs(r.pos.x as int) + 1, abs(r.pos.y as int) + 1) > (c - 1) * (c - 1) * (d * d)
            &&& !bounced ==> q >= 0
            &&& (bounced && -PHYS_LIMIT < r.vel.x < PHYS_LIMIT && -PHYS_LIMIT < r.vel.y
                < PHYS_LIMIT) ==> -(x * r.vel.x + y * r.vel.y) >= m.bounce_speed * c >= 0
        }),
{
    let d = m.tube_radius - b.radius;
    let x = b.pos.x as int;
    let y = b.pos.y as int;
    let n2 = len2_xy(x, y);
    assert(c > 0 && d * d < c * c && n2 > 0) by (nonlinear_arith)
        requires
            n2 > d * d,
            d >= 1,
            n2 <= c * c,
            c >= 0,
    ;
    let px = scale_toward_zero(x, d, c);
    let py = scale_toward_zero(y, d, c);
    lemma_toward_zero(x, d, c);
    lemma_toward_zero(y, d, c);
    assert(px * px + py * py <= d * d) by (nonlinear_arith)
        requires
            px * px * (c * c) <= x * x * (d * d),
            py * py * (c * c) <= y * y * (d * d),
            x * x + y * y <= c * c,
            c > 0,
    ;
    lemma_toward_zero_lower(x, d, c);
    lemma_toward_zero_lower(y, d, c);
    let ax = abs(px) + 1;
    let ay = abs(py) + 1;
    let bx = abs(x) * d;
    let by = abs(y) * d;
    assert(bx >= 0 && by >= 0) by (nonlinear_arith)
        requires
            bx == abs(x) * d,
            by == abs(y) * d,
            d >= 1,
    ;
    assert(ax * c * (ax * c) >= bx * bx && ay * c * (ay * c) >= by * by) by (nonlinear_arith)
        requires
            ax * c > bx >= 0,
            ay * c > by >= 0,
    ;
    assert(abs(x) * abs(x) == x * x && abs(y) * abs(y) == y * y) by (nonlinear_arith)
        requires
            abs(x) == (if x < 0 { -x } else { x }),
            abs(y) == (if y < 0 { -y } else { y }),
    ;
    assert(bx * bx + by * by == (x * x + y * y) * (d * d)) by (nonlinear_arith)
        requires
            bx == abs(x) * d,
            by == abs(y) * d,
            abs(x) * abs(x) == x * x,
            abs(y) * abs(y) == y * y,
    ;
    assert((x * x + y * y) * (d * d) > (c - 1) * (c - 1) * (d * d)) by (nonlinear_arith)
        requires
            x * x + y * y > (c - 1) * (c - 1),
            d >= 1,
    ;
    assert(c * c * (ax * ax + ay * ay) == ax * c * (ax * c) + ay * c * (ay * c)) by (nonlinear_arith);
    assert(c * c * len2_xy(ax, ay) > (c - 1) * (c - 1) * (d * d));
    assert(-PHYS_LIMIT <= px <= PHYS_LIMIT && -PHYS_LIMIT <= py <= PHYS_LIMIT) by (nonlinear_arith)
        requires
            px * px + py * py <= d * d,
            1 <= d <= PHYS_LIMIT,
    ;
    let q = -(x * b.vel.x + y * b.vel.y);
    if q < 0 {
        let a = m.bounce_speed * c - q;
        let dx = scale_away(-x, a, n2);
        let dy = scale_away(-y, a, n2);
        assert(a >= 0) by (nonlinear_arith)
            requires
                m.bounce_speed >= 0,
                c >= 0,
                q < 0,
                a == m.bounce_speed * c - q,
        ;
        lemma_away(-x, a, n2);
        lemma_away(-y, a, n2);
        assert((-x) * dx + (-y) * dy >= a) by (nonlinear_arith)
            requires
                (-x) * dx * n2 >= (-x) * (-x) * a,
                (-y) * dy * n2 >= (-y) * (-y) * a,
                n2 == x * x + y * y,
                n2 > 0,
        ;
        let r = tube_response(b, m, c).0;
        if -PHYS_LIMIT < r.vel.x < PHYS_LIMIT && -PHYS_LIMIT < r.vel.y < PHYS_LIMIT {
            assert(r.vel.x == b.vel.x + dx);
            assert(r.vel.y == b.vel.y + dy);
            assert(-(x * r.vel.x + y * r.vel.y) == q + (-x) * dx + (-y) * dy) by (nonlinear_arith)
                requires
                    r.vel.x == b.vel.x + dx,
                    r.vel.y == b.vel.y + dy,
                    q == -(x * b.vel.x + y * b.vel.y),
            ;
            assert(m.bounce_speed * c >= 0) by (nonlinear_arith)
                requires
                    m.bounce_speed >= 0,
                    c >= 0,
            ;
        }
    }
}

/// `v` scaled down, if needed, to length at most `max`: each coordinate times
/// `max` over the rounded-up length, rounded toward zero.
pub open spec fn clamped(v: Vec2, max: int) -> Vec2 {
    let n2 = len2_xy(v.x as int, v.y as int);
    if n2 <= max * max {
        v
    } else {
        let c = ceil_sqrt_of(n2);
        Vec2 { x: scale_toward_zero(v.x as int, max, c) as i64, y: scale_toward_zero(v.y as int, max, c) as i64 }
    }
}

/// Scales `v` down to length at most `max`.
pub fn clamp_len(v: Vec2, max: i64) -> (r: Vec2)
    requires
        -2 * PHYS_LIMIT <= v.x <= 2 * PHYS_LIMIT,
        -2 * PHYS_LIMIT <= v.y <= 2 * PHYS_LIMIT,
        0 <= max <= PHYS_LIMIT,
    ensures
        r == clamped(v, max as int),
        len2_xy(r.x as int, r.y as int) <= max * max,
        -PHYS_LIMIT <= r.x <= PHYS_LIMIT,
        -PHYS_LIMIT <= r.y <= PHYS_LIMIT,
{
    let x = v.x as i128;
    let y = v.y as i128;
    proof {
        lemma_mul_abs_bound(x as int, x as int, 2 * PHYS_LIMIT as int, 2 * PHYS_LIMIT as int);
        lemma_mul_abs_bound(y as int, y as int, 2 * PHYS_LIMIT as int, 2 * PHYS_LIMIT as int);
        lemma_mul_abs_bound(max as int, max as int, PHYS_LIMIT as int, PHYS_LIMIT as int);
    }
    let n2: i128 = x * x + y * y;
    if n2 <= max as i128 * max as i128 {
        assert(-PHYS_LIMIT <= x <= PHYS_LIMIT && -PHYS_LIMIT <= y <= PHYS_LIMIT) by (nonlinear_arith)
            requires
                x * x + y * y <= max * max,
                0 <= max <= PHYS_LIMIT,
        ;
        return v;
    }
    let c = ceil_sqrt(n2 as u64);
    proof {
        lemma_ceil_sqrt_unique(n2 as int, c as int);
        assert(c > 0 && max * max < c * c) by (nonlinear_arith)
            requires
                n2 <= c * c,
                n2 > max * max,
                max >= 0,
        ;
    }
    let c = c as i128;
    let px = toward_zero(x, max as i128, c);
    let py = toward_zero(y, max as i128, c);
    proof {
        lemma_toward_zero(x as int, max as int, c as int);
        lemma_toward_zero(y as int, max as int, c as int);
        assert(px * px + py * py <= max * max) by (nonlinear_arith)
            requires
                px * px * (c * c) <= x * x * (max * max),
                py * py * (c * c) <= y * y * (max * max),
                x * x + y * y <= c * c,
                c > 0,
        ;
        assert(-PHYS_LIMIT <= px <= PHYS_LIMIT && -PHYS_LIMIT <= py <= PHYS_LIMIT) by (nonlinear_arith)
            requires
                px * px + py * py <= max * max,
                0 <= max <= PHYS_LIMIT,
        ;
    }
    Vec2 { x: px as i64, y: py as i64 }
}

/// Index of the first coin within reach of `pos`: closer than `reach`.
pub open spec fn within_reach(coin: Vec3, pos: Vec3, reach: int) -> bool {
    let dx = coin.x - pos.x;
    let dy = coin.y - pos.y;
    let dz = coin.z - pos.z;
    dx * dx + dy * dy + dz * dz < reach * reach
}

/// The index of the first coin, from index `k` on, within `reach` of `pos`.
pub open spec fn first_coin(coins: Seq<Vec3>, pos: Vec3, reach: int, k: int) -> Option<int>
    decreases coins.len() - k,
{
    if k < 0 || k >= coins.len() {
        None
    } else if within_reach(coins[k], pos, reach) {
        Some(k)
    } else {
        first_coin(coins, pos, reach, k + 1)
    }
}

/// The first coin within `reach` of `pos`, if any.
pub fn find_coin(coins: &Vec<Vec3>, pos: Vec3, reach: i64) -> (r: Option<usize>)
    requires
        forall|k: int| 0 <= k < coins@.len() ==> crate::geom::vec3_ok(#[trigger] coins@[k]),
        crate::geom::vec3_ok(pos),
        0 <= reach <= PHYS_LIMIT,
    ensures
        r matches Some(i) ==> i < coins@.len() && within_reach(coins@[i as int], pos, reach as int)
            && forall|k: int| 0 <= k < i ==> !within_reach(#[trigger] coins@[k], pos, reach as int),
        r is None ==> forall|k: int| 0 <= k < coins@.len() ==> !within_reach(#[trigger] coins@[k], pos, reach as int),
        first_coin(coins@, pos, reach as int, 0) == (match r {
            Some(i) => Some(i as int),
            None => None,
        }),
{
    let mut i: usize = 0;
    while i < coins.len()
        invariant
            forall|k: int| 0 <= k < coins@.len() ==> crate::geom::vec3_ok(#[trigger] coins@[k]),
            crate::geom::vec3_ok(pos),
            0 <= reach <= PHYS_LIMIT,
            i <= coins@.len(),
            forall|k: int| 0 <= k < i ==> !within_reach(#[trigger] coins@[k], pos, reach as int),
            first_coin(coins@, pos, reach as int, 0) == first_coin(coins@, pos, reach as int, i as int),
        decreases coins@.len() - i,
    {
        let c = coins[i];
        assert(crate::geom::vec3_ok(coins@[i as int]));
        let dx = c.x as i128 - pos.x as i128;
        let dy = c.y as i128 - pos.y as i128;
        let dz = c.z as i128 - pos.z as i128;
        proof {
            lemma_mul_abs_bound(dx as int, dx as int, 0x200_0000_0000, 0x200_0000_0000);
            lemma_mul_abs_bound(dy as int, dy as int, 0x200_0000_0000, 0x200_0000_0000);
            lemma_mul_abs_bound(dz as int, dz as int, 0x200_0000_0000, 0x200_0000_0000);
            lemma_mul_abs_bound(reach as int, reach as int, PHYS_LIMIT as int, PHYS_LIMIT as int);
        }
        if dx * dx + dy * dy + dz * dz < reach as i128 * reach as i128 {
            return Some(i);
        }
        i = i + 1;
    }
    None
}

/// `v * dt / 1000`, rounded toward zero: the distance covered in `dt` milliseconds.
pub open spec fn travel(v: int, dt: int) -> int {
    scale_toward_zero(v, dt, MILLIS as int)
}

/// Moves the body by its velocity over `dt` milliseconds.
pub fn integrate(b: Body, dt: i64) -> (r: Body)
    requires
        body_ok(b),
        0 <= dt <= TICK_LIMIT,
    ensures
        r.vel == b.vel,
        r.radius == b.radius,
        r.pos.x == b.pos.x + travel(b.vel.x as int, dt as int),
        r.pos.y == b.pos.y + travel(b.vel.y as int, dt as int),
        r.pos.z == b.pos.z + travel(b.vel.z as int, dt as int),
{
    proof {
        lemma_travel_bound(b.vel.x as int, dt as int);
        lemma_travel_bound(b.vel.y as int, dt as int);
        lemma_travel_bound(b.vel.z as int, dt as int);
    }
    let tx = toward_zero(b.vel.x as i128, dt as i128, MILLIS as i128);
    let ty = toward_zero(b.vel.y as i128, dt as i128, MILLIS as i128);
    let tz = toward_zero(b.vel.z as i128, dt as i128, MILLIS as i128);
    Body {
        pos: Vec3 { x: b.pos.x + tx as i64, y: b.pos.y + ty as i64, z: b.pos.z + tz as i64 },
        vel: b.vel,
        radius: b.radius,
    }
}

proof fn lemma_travel_bound(v: int, dt: int)
    requires
        -PHYS_LIMIT <= v <= PHYS_LIMIT,
        0 <= dt <= TICK_LIMIT,
    ensures
        -PHYS_LIMIT * TICK_LIMIT <= travel(v, dt) <= PHYS_LIMIT * TICK_LIMIT,
{
    let a = if v < 0 { -v } else { v };
    lemma_mul_abs_bound(a, dt, PHYS_LIMIT as int, TICK_LIMIT as int);
    assert(0 <= a * dt) by (nonlinear_arith)
        requires
            a >= 0,
            dt >= 0,
    ;
    assert(a * dt / 1000 <= a * dt);
    lemma_shrink(PHYS_LIMIT as int, dt);
}

pub(crate) proof fn lemma_shrink(v: int, k: int)
    requires
        -PHYS_LIMIT <= v <= PHYS_LIMIT,
        0 <= k <= MILLIS,
    ensures
        -PHYS_LIMIT <= scale_toward_zero(v, k, MILLIS as int) <= PHYS_LIMIT,
        v >= 0 ==> 0 <= scale_toward_zero(v, k, MILLIS as int),
{
    let a = if v < 0 { -v } else { v };
    let t = a * k;
    vstd::arithmetic::div_mod::lemma_fundamental_div_mod(t, MILLIS as int);
    vstd::arithmetic::div_mod::lemma_mod_pos_bound(t, MILLIS as int);
    assert(0 <= t <= a * 1000) by (nonlinear_arith)
        requires
            t == a * k,
            a >= 0,
            0 <= k <= 1000,
    ;
    assert(0 <= t / 1000 <= a) by (nonlinear_arith)
        requires
            1000 * (t / 1000) + t % 1000 == t,
            0 <= t % 1000 < 1000,
            0 <= t <= a * 1000,
    ;
}

proof fn lemma_half_travel(v: int, dt: int)
    requires
        -PHYS_LIMIT <= v <= PHYS_LIMIT,
        0 <= dt <= MILLIS / 2,
    ensures
        -(PHYS_LIMIT / 2) <= travel(v, dt) <= PHYS_LIMIT / 2,
{
    let a = if v < 0 { -v } else { v };
    let t = a * dt;
    vstd::arithmetic::div_mod::lemma_fundamental_div_mod(t, 1000);
    vstd::arithmetic::div_mod::lemma_mod_pos_bound(t, 1000);
    assert(0 <= t <= PHYS_LIMIT * 500) by (nonlinear_arith)
        requires
            t == a * dt,
            0 <= a <= PHYS_LIMIT,
            0 <= dt <= 500,
    ;
    assert(0 <= t / 1000 <= PHYS_LIMIT / 2) by (nonlinear_arith)
        requires
            1000 * (t / 1000) + t % 1000 == t,
            0 <= t % 1000 < 1000,
            0 <= t <= PHYS_LIMIT * 500,
    ;
}

/// The body after the steering, gravity and tube-wall part of a tick of `dt`
/// milliseconds, before it moves: the cross-section velocity moves toward
/// `target` (scaled by the start ramp, in thousandths) by at most
/// `acceleration * dt / 1000`; gravity acts once the run has started; the tube
/// wall responds. Velocity components saturate at the physics' bounds. The
/// flag tells whether the body bounced off the wall.
pub open spec fn respond(b: Body, target: Vec2, ramp: int, started: bool, m: Motion, dt: int) -> (Body, bool) {
    let goal = Vec2 {
        x: scale_toward_zero(target.x as int, ramp, MILLIS as int) as i64,
        y: scale_toward_zero(target.y as int, ramp, MILLIS as int) as i64,
    };
    let cap = m.acceleration * dt / MILLIS as int;
    let dv = clamped(Vec2 { x: (goal.x - b.vel.x) as i64, y: (goal.y - b.vel.y) as i64 }, cap);
    let vel = Vec3 {
        x: saturate(b.vel.x + dv.x) as i64,
        y: saturate(b.vel.y + dv.y) as i64,
        z: saturate(b.vel.z + gravity_dv(b.vel.z as int, started, m, dt)) as i64,
    };
    let steered = Body { pos: b.pos, vel, radius: b.radius };
    tube_response(steered, m, ceil_sqrt_of(len2_xy(b.pos.x as int, b.pos.y as int)))
}

/// The body moved by its velocity over `dt` milliseconds.
pub open spec fn travelled(b: Body, dt: int) -> Body {
    Body {
        pos: Vec3 {
            x: (b.pos.x + travel(b.vel.x as int, dt)) as i64,
            y: (b.pos.y + travel(b.vel.y as int, dt)) as i64,
            z: (b.pos.z + travel(b.vel.z as int, dt)) as i64,
        },
        vel: b.vel,
        radius: b.radius,
    }
}

/// One whole tick of the body's motion: the response, then the move.
pub open spec fn tick(b: Body, target: Vec2, ramp: int, started: bool, m: Motion, dt: int) -> (Body, bool) {
    let (hit, bounced) = respond(b, target, ramp, started, m, dt);
    (travelled(hit, dt), bounced)
}

/// Steers the body, applies gravity and resolves its contact with the tube
/// wall; the flag tells whether it bounced.
pub fn respond_body(b: Body, target: Vec2, ramp: i64, started: bool, m: &Motion, dt: i64) -> (r: (Body, bool))
    requires
        body_ok(b),
        motion_ok(*m),
        b.radius < m.tube_radius,
        -PHYS_LIMIT <= target.x <= PHYS_LIMIT,
        -PHYS_LIMIT <= target.y <= PHYS_LIMIT,
        0 <= ramp <= MILLIS,
        0 <= dt <= TICK_LIMIT,
    ensures
        r == respond(b, target, ramp as int, started, *m, dt as int),
        body_ok(r.0),
        r.0.radius == b.radius,
        r.0.pos.z == b.pos.z,
        -(m.tube_radius - b.radius) <= r.0.pos.x <= m.tube_radius - b.radius,
        -(m.tube_radius - b.radius) <= r.0.pos.y <= m.tube_radius - b.radius,
{
    let gx = toward_zero(target.x as i128, ramp as i128, MILLIS as i128);
    let gy = toward_zero(target.y as i128, ramp as i128, MILLIS as i128);
    proof {
        lemma_shrink(target.x as int, ramp as int);
        lemma_shrink(target.y as int, ramp as int);
        lemma_mul_abs_bound(m.acceleration as int, dt as int, PHYS_LIMIT as int, TICK_LIMIT as int);
        assert(0 <= m.acceleration * dt) by (nonlinear_arith)
            requires
                m.acceleration >= 0,
                dt >= 0,
        ;
    }
    let cap = m.acceleration * dt / MILLIS;
    proof {
        lemma_shrink(m.acceleration as int, dt as int);
        assert(m.acceleration * dt / MILLIS as int == scale_toward_zero(m.acceleration as int, dt as int, MILLIS as int));
    }
    let dv = clamp_len(Vec2 { x: gx as i64 - b.vel.x, y: gy as i64 - b.vel.y }, cap);
    let vz = apply_gravity(b.vel.z, started, m, dt);
    let vel = Vec3 {
        x: saturate_exec(b.vel.x as i128 + dv.x as i128),
        y: saturate_exec(b.vel.y as i128 + dv.y as i128),
        z: saturate_exec(vz as i128),
    };
    let steered = Body { pos: b.pos, vel, radius: b.radius };
    let (hit, bounced) = tube_collide(steered, m);
    proof {
        let d = m.tube_radius - b.radius;
        assert(-d <= hit.pos.x <= d && -d <= hit.pos.y <= d) by (nonlinear_arith)
            requires
                hit.pos.x * hit.pos.x + hit.pos.y * hit.pos.y <= d * d,
                d >= 1,
        ;
    }
    (hit, bounced)
}

/// Advances the body by one tick; the flag tells whether it bounced off the tube.
pub fn step_body(b: Body, target: Vec2, ramp: i64, started: bool, m: &Motion, dt: i64) -> (r: (Body, bool))
    requires
        body_ok(b),
        motion_ok(*m),
        b.radius < m.tube_radius,
        -PHYS_LIMIT <= target.x <= PHYS_LIMIT,
        -PHYS_LIMIT <= target.y <= PHYS_LIMIT,
        0 <= ramp <= MILLIS,
        0 <= dt <= TICK_LIMIT,
    ensures
        r == tick(b, target, ramp as int, started, *m, dt as int),
{
    let (hit, bounced) = respond_body(b, target, ramp, started, m, dt);
    let moved = integrate(hit, dt);
    (moved, bounced)
}

/// The bounds of a body that moved for at most half a second from a point
/// within `reach` of the axis.
pub proof fn lemma_travelled_bounds(b: Body, dt: int, reach: int)
    requires
        body_ok(b),
        0 <= dt <= MILLIS / 2,
        -reach <= b.pos.x <= reach,
        -reach <= b.pos.y <= reach,
    ensures
        -(reach + PHYS_LIMIT / 2) <= travelled(b, dt).pos.x <= reach + PHYS_LIMIT / 2,
        -(reach + PHYS_LIMIT / 2) <= travelled(b, dt).pos.y <= reach + PHYS_LIMIT / 2,
        b.pos.z - PHYS_LIMIT / 2 <= travelled(b, dt).pos.z <= b.pos.z + PHYS_LIMIT / 2,
{
    lemma_half_travel(b.vel.x as int, dt);
    lemma_half_travel(b.vel.y as int, dt);
    lemma_half_travel(b.vel.z as int, dt);
}

/// The change of a velocity component along `n` that makes the normal
/// speed `a / |n|` larger: `n * a / |n|^2`, rounded away from zero.
pub open spec fn normal_change(n: int, a: int, n2: int) -> int {
    if a >= 0 {
        scale_away(n, a, n2)
    } else {
        -scale_away(n, -a, n2)
    }
}

/// The velocity after a bounce off a surface whose inward normal points along
/// `n`: the component along the normal is set to `bounce_speed` (taking the
/// rounded-up length of `n` as its length), the change rounded away from zero
/// and each component saturated.
pub open spec fn bounce_velocity(vel: Vec3, n: Vec2, bounce_speed: int) -> Vec3 {
    let nx = n.x as int;
    let ny = n.y as int;
    let n2 = len2_xy(nx, ny);
    let q = nx * vel.x + ny * vel.y;
    let a = bounce_speed * ceil_sqrt_of(n2) - q;
    if n2 == 0 {
        vel
    } else {
        Vec3 {
            x: saturate(vel.x + normal_change(nx, a, n2)) as i64,
            y: saturate(vel.y + normal_change(ny, a, n2)) as i64,
            z: vel.z,
        }
    }
}

/// Bounces a velocity off a surface whose inward normal points along `n`.
pub fn bounce_off(vel: Vec3, n: Vec2, bounce_speed: i64) -> (r: Vec3)
    requires
        -PHYS_LIMIT <= vel.x <= PHYS_LIMIT,
        -PHYS_LIMIT <= vel.y <= PHYS_LIMIT,
        -PHYS_LIMIT <= n.x <= PHYS_LIMIT,
        -PHYS_LIMIT <= n.y <= PHYS_LIMIT,
        0 <= bounce_speed <= PHYS_LIMIT,
    ensures
        r == bounce_velocity(vel, n, bounce_speed as int),
        -PHYS_LIMIT <= r.x <= PHYS_LIMIT,
        -PHYS_LIMIT <= r.y <= PHYS_LIMIT,
        r.z == vel.z,
{
    let x = n.x as i128;
    let y = n.y as i128;
    proof {
        lemma_mul_abs_bound(x as int, x as int, PHYS_LIMIT as int, PHYS_LIMIT as int);
        lemma_mul_abs_bound(y as int, y as int, PHYS_LIMIT as int, PHYS_LIMIT as int);
        lemma_mul_abs_bound(x as int, vel.x as int, PHYS_LIMIT as int, PHYS_LIMIT as int);
        lemma_mul_abs_bound(y as int, vel.y as int, PHYS_LIMIT as int, PHYS_LIMIT as int);
    }
    let n2: i128 = x * x + y * y;
    assert(n2 >= 0) by (nonlinear_arith)
        requires
            n2 == x * x + y * y,
    ;
    if n2 == 0 {
        return vel;
    }
    let c = ceil_sqrt(n2 as u64);
    proof {
        lemma_ceil_sqrt_unique(n2 as int, c as int);
        lemma_mul_abs_bound(bounce_speed as int, c as int, PHYS_LIMIT as int, 0x1_0000_0000);
    }
    let q: i128 = x * vel.x as i128 + y * vel.y as i128;
    let a: i128 = bounce_speed as i128 * c as i128 - q;
    let mag: i128 = if a >= 0 { a } else { -a };
    proof {
        lemma_away_bound(x as int, mag as int, n2 as int, PHYS_LIMIT as int);
        lemma_away_bound(y as int, mag as int, n2 as int, PHYS_LIMIT as int);
        lemma_mul_abs_bound(PHYS_LIMIT as int, mag as int, PHYS_LIMIT as int, 0x1_0000_0000_0000_0000);
    }
    let ex = away(x, mag, n2);
    let ey = away(y, mag, n2);
    let dx = if a >= 0 { ex } else { -ex };
    let dy = if a >= 0 { ey } else { -ey };
    Vec3 {
        x: saturate_exec(vel.x as i128 + dx),
        y: saturate_exec(vel.y as i128 + dy),
        z: vel.z,
    }
}

/// The target velocity for held direction keys: the sum of their unit
/// directions, scaled to `max_speed` and shortened to it when diagonal.
pub fn key_target(up: bool, left: bool, down: bool, right: bool, max_speed: i64) -> (r: Vec2)
    requires
        0 <= max_speed <= PHYS_LIMIT,
    ensures
        r == clamped(
            Vec2 {
                x: ((if right { max_speed as int } else { 0 }) - (if left { max_speed as int } else { 0 })) as i64,
                y: ((if up { max_speed as int } else { 0 }) - (if down { max_speed as int } else { 0 })) as i64,
            },
            max_speed as int,
        ),
        len2_xy(r.x as int, r.y as int) <= max_speed * max_speed,
{
    let x: i64 = (if right { max_speed } else { 0 }) - (if left { max_speed } else { 0 });
    let y: i64 = (if up { max_speed } else { 0 }) - (if down { max_speed } else { 0 });
    clamp_len(Vec2 { x, y }, max_speed)
}

/// `r` lies between `0` and `v`.
pub open spec fn shrinks(v: int, r: int) -> bool {
    (v >= 0 ==> 0 <= r <= v) && (v < 0 ==> v <= r <= 0)
}

proof fn lemma_scale_down(v: int, num: int, den: int)
    requires
        0 <= num <= den,
        den > 0,
    ensures
        shrinks(v, scale_toward_zero(v, num, den)),
{
    let a = if v < 0 { -v } else { v };
    let t = a * num;
    vstd::arithmetic::div_mod::lemma_fundamental_div_mod(t, den);
    vstd::arithmetic::div_mod::lemma_mod_pos_bound(t, den);
    assert(0 <= t <= a * den) by (nonlinear_arith)
        requires
            t == a * num,
            a >= 0,
            0 <= num <= den,
    ;
    assert(0 <= t / den <= a) by (nonlinear_arith)
        requires
            den * (t / den) + t % den == t,
            0 <= t % den < den,
            0 <= t <= a * den,
    ;
}

/// `v` scaled down, if needed, to length at most `max`, in three dimensions.
pub open spec fn clamped3(v: Vec3, max: int) -> Vec3 {
    let n2 = v.x * v.x + v.y * v.y + v.z * v.z;
    if n2 <= max * max {
        v
    } else {
        let c = ceil_sqrt_of(n2);
        Vec3 {
            x: scale_toward_zero(v.x as int, max, c) as i64,
            y: scale_toward_zero(v.y as int, max, c) as i64,
            z: scale_toward_zero(v.z as int, max, c) as i64,
        }
    }
}

/// Scales a three-dimensional `v` down to length at most `max`.
pub fn clamp_len3(v: Vec3, max: i64) -> (r: Vec3)
    requires
        -PHYS_LIMIT <= v.x <= PHYS_LIMIT,
        -PHYS_LIMIT <= v.y <= PHYS_LIMIT,
        -PHYS_LIMIT <= v.z <= PHYS_LIMIT,
        0 <= max <= PHYS_LIMIT,
    ensures
        r == clamped3(v, max as int),
        -PHYS_LIMIT <= r.x <= PHYS_LIMIT,
        -PHYS_LIMIT <= r.y <= PHYS_LIMIT,
        -PHYS_LIMIT <= r.z <= PHYS_LIMIT,
        shrinks(v.x as int, r.x as int),
        shrinks(v.y as int, r.y as int),
        shrinks(v.z as int, r.z as int),
{
    let x = v.x as i128;
    let y = v.y as i128;
    let z = v.z as i128;
    proof {
        lemma_mul_abs_bound(x as int, x as int, PHYS_LIMIT as int, PHYS_LIMIT as int);
        lemma_mul_abs_bound(y as int, y as int, PHYS_LIMIT as int, PHYS_LIMIT as int);
        lemma_mul_abs_bound(z as int, z as int, PHYS_LIMIT as int, PHYS_LIMIT as int);
        lemma_mul_abs_bound(max as int, max as int, PHYS_LIMIT as int, PHYS_LIMIT as int);
    }
    let n2: i128 = x * x + y * y + z * z;
    if n2 <= max as i128 * max as i128 {
        return v;
    }
    let c = ceil_sqrt(n2 as u64);
    proof {
        lemma_ceil_sqrt_unique(n2 as int, c as int);
        assert(c > 0 && max * max < c * c) by (nonlinear_arith)
            requires
                n2 <= c * c,
                n2 > max * max,
                max >= 0,
        ;
    }
    let c = c as i128;
    let px = toward_zero(x, max as i128, c);
    let py = toward_zero(y, max as i128, c);
    let pz = toward_zero(z, max as i128, c);
    proof {
        assert(max <= c) by (nonlinear_arith)
            requires
                max * max < c * c,
                max >= 0,
                c > 0,
        ;
        lemma_scale_down(x as int, max as int, c as int);
        lemma_scale_down(y as int, max as int, c as int);
        lemma_scale_down(z as int, max as int, c as int);
        lemma_toward_zero(x as int, max as int, c as int);
        lemma_toward_zero(y as int, max as int, c as int);
        lemma_toward_zero(z as int, max as int, c as int);
        assert(px * px <= max * max && py * py <= max * max && pz * pz <= max * max) by (nonlinear_arith)
            requires
                px * px * (c * c) <= x * x * (max * max),
                py * py * (c * c) <= y * y * (max * max),
                pz * pz * (c * c) <= z * z * (max * max),
                x * x + y * y + z * z <= c * c,
                c > 0,
        ;
        assert(-PHYS_LIMIT <= px <= PHYS_LIMIT && -PHYS_LIMIT <= py <= PHYS_LIMIT && -PHYS_LIMIT <= pz
            <= PHYS_LIMIT) by (nonlinear_arith)
            requires
                px * px <= max * max,
                py * py <= max * max,
                pz * pz <= max * max,
                0 <= max <= PHYS_LIMIT,
        ;
    }
    Vec3 { x: px as i64, y: py as i64, z: pz as i64 }
}

} // verus!
