//! The per-tick rules around the player's motion: the start and finish ramps,
//! field-of-view easing, camera shake, camera follow and drift, obstacle
//! passes, the bounce sample ring, and the run's end.
//!
//! Ramps are kept in thousandths: `1000` is a complete ramp.
use vstd::prelude::*;
use crate::arith::{abs, lemma_mul_abs_bound};
use crate::particles::{disc_draw, draw, draw_disc, DISC_TRIES};
use crate::rng::{Rng, state_ok, step};
use crate::geom::{Vec2, Vec3, len2_xy, vec3_ok};
use crate::hittest::{Obstacle, AlphaMask, scene_ok, touches, passes_through};
use crate::physics::{Body, MILLIS, PHYS_LIMIT, DEPTH_RANGE, TICK_LIMIT, clamped, clamped3, clamp_len, clamp_len3, scale_toward_zero, ceil_sqrt,
    ceil_sqrt_of};

verus! {

/// Largest ramp or effect duration, in milliseconds.
pub const DURATION_LIMIT: i64 = 0x100_0000;

/// Largest ramp reading, in thousandths.
pub const RAMP_LIMIT: i64 = 0x1000_0000_0000;

/// A ramp advanced by `dt` milliseconds of a ramp lasting `duration`.
pub open spec fn ramp_after(t: int, dt: int, duration: int) -> int {
    t + dt * MILLIS as int / duration
}

/// Advances a ramp, if it is running; it keeps growing past `1000`.
pub fn advance_ramp(t: Option<i64>, dt: i64, duration: i64) -> (r: Option<i64>)
    requires
        0 <= dt <= TICK_LIMIT,
        1 <= duration <= DURATION_LIMIT,
        t matches Some(v) ==> 0 <= v <= RAMP_LIMIT,
    ensures
        t is None ==> r is None,
        t matches Some(v) ==> r == Some(ramp_after(v as int, dt as int, duration as int) as i64),
{
    match t {
        None => None,
        Some(v) => {
            proof {
                assert(dt * 1000 / (duration as int) <= 1000 * 1000) by (nonlinear_arith)
                    requires
                        0 <= dt <= 1000,
                        1 <= duration,
                ;
                assert(0 <= dt * 1000 / (duration as int)) by (nonlinear_arith)
                    requires
                        0 <= dt,
                        1 <= duration,
                ;
            }
            Some(v + dt * MILLIS / duration)
        },
    }
}

/// A ramp reading clamped to `0 ..= 1000`.
pub open spec fn unit(t: int) -> int {
    if t < 0 {
        0
    } else if t > MILLIS {
        MILLIS as int
    } else {
        t
    }
}

/// The field of view while the start ramp stands at `t`: from `start_fov`
/// toward `play_fov` as the ramp completes, in the units of the two values.
pub open spec fn eased_fov(t: int, start_fov: int, play_fov: int) -> int {
    (unit(t) * play_fov + (MILLIS - unit(t)) * start_fov) / MILLIS as int
}

/// The field of view for a run whose start ramp stands at `started`.
pub fn field_of_view(started: Option<i64>, start_fov: i64, play_fov: i64) -> (r: i64)
    requires
        0 <= start_fov <= PHYS_LIMIT,
        0 <= play_fov <= PHYS_LIMIT,
    ensures
        r == eased_fov(
            match started {
                Some(t) => t as int,
                None => 0,
            },
            start_fov as int,
            play_fov as int,
        ),
{
    let t = match started {
        Some(t) => t,
        None => 0,
    };
    let u = if t < 0 {
        0
    } else if t > MILLIS {
        MILLIS
    } else {
        t
    };
    proof {
        lemma_mul_abs_bound(u as int, play_fov as int, 1000, PHYS_LIMIT as int);
        lemma_mul_abs_bound(1000 - u, start_fov as int, 1000, PHYS_LIMIT as int);
        assert(0 <= u * play_fov + (1000 - u) * start_fov) by (nonlinear_arith)
            requires
                0 <= u <= 1000,
                0 <= play_fov,
                0 <= start_fov,
        ;
    }
    (u * play_fov + (MILLIS - u) * start_fov) / MILLIS
}

/// Shake strength with `left` milliseconds of a shake lasting `duration` to go:
/// it falls linearly from `amount` to `0`.
pub open spec fn shake_strength(left: int, duration: int, amount: int) -> int {
    if left <= 0 {
        0
    } else if left >= duration {
        amount
    } else {
        amount * left / duration
    }
}

/// The camera shake's current strength.
pub fn shake_amount(left: i64, duration: i64, amount: i64) -> (r: i64)
    requires
        1 <= duration <= DURATION_LIMIT,
        0 <= amount <= PHYS_LIMIT,
    ensures
        r == shake_strength(left as int, duration as int, amount as int),
        0 <= r <= amount,
{
    if left <= 0 {
        0
    } else if left >= duration {
        amount
    } else {
        proof {
            lemma_mul_abs_bound(amount as int, left as int, PHYS_LIMIT as int, DURATION_LIMIT as int);
            assert(0 <= amount * left / (duration as int) <= amount) by (nonlinear_arith)
                requires
                    0 <= amount,
                    0 < left < duration,
            {
                vstd::arithmetic::div_mod::lemma_fundamental_div_mod(amount * left, duration as int);
                vstd::arithmetic::div_mod::lemma_mod_pos_bound(amount * left, duration as int);
                assert(amount * left <= amount * duration) by (nonlinear_arith)
                    requires
                        0 <= amount,
                        left < duration,
                ;
                assert(0 <= amount * left) by (nonlinear_arith)
                    requires
                        0 <= amount,
                        0 < left,
                ;
            }
        }
        amount * left / duration
    }
}

/// The camera while it follows the player: a fraction (in thousandths) of the
/// player's cross-section position, and `distance` above the player.
pub open spec fn follow_position(p: Vec3, horizontal: int, distance: int) -> Vec3 {
    Vec3 {
        x: scale_toward_zero(p.x as int, horizontal, MILLIS as int) as i64,
        y: scale_toward_zero(p.y as int, horizontal, MILLIS as int) as i64,
        z: (p.z + distance) as i64,
    }
}

/// Where the camera stands while it follows the player at `p`.
pub fn camera_follow(p: Vec3, horizontal: i64, distance: i64) -> (r: Vec3)
    requires
        -PHYS_LIMIT <= p.x <= PHYS_LIMIT,
        -PHYS_LIMIT <= p.y <= PHYS_LIMIT,
        -DEPTH_RANGE <= p.z <= DEPTH_RANGE,
        0 <= horizontal <= MILLIS,
        -PHYS_LIMIT <= distance <= PHYS_LIMIT,
    ensures
        r == follow_position(p, horizontal as int, distance as int),
        -PHYS_LIMIT <= r.x <= PHYS_LIMIT,
        -PHYS_LIMIT <= r.y <= PHYS_LIMIT,
{
    proof {
        lemma_mul_abs_bound(p.x as int, horizontal as int, PHYS_LIMIT as int, 1000);
        lemma_mul_abs_bound(p.y as int, horizontal as int, PHYS_LIMIT as int, 1000);
        lemma_mul_abs_bound(-p.x as int, horizontal as int, PHYS_LIMIT as int, 1000);
        lemma_mul_abs_bound(-p.y as int, horizontal as int, PHYS_LIMIT as int, 1000);
        crate::physics::lemma_shrink(p.x as int, horizontal as int);
        crate::physics::lemma_shrink(p.y as int, horizontal as int);
    }
    let x = if p.x < 0 {
        -((-p.x) * horizontal / MILLIS)
    } else {
        p.x * horizontal / MILLIS
    };
    let y = if p.y < 0 {
        -((-p.y) * horizontal / MILLIS)
    } else {
        p.y * horizontal / MILLIS
    };
    Vec3 { x, y, z: p.z + distance }
}

/// The obstacles at depths that the player's center crossed going down from
/// `prev_z` to `new_z`.
pub open spec fn passed(obs: Seq<Obstacle>, prev_z: int, new_z: int, n: nat) -> nat
    decreases n,
{
    if n == 0 || n > obs.len() {
        0
    } else {
        passed(obs, prev_z, new_z, (n - 1) as nat) + (if prev_z >= obs[n - 1].z && new_z < obs[n
            - 1].z {
            1nat
        } else {
            0nat
        })
    }
}

/// How many obstacles the player passed this tick, each of which plays a sound.
pub fn count_passed(obs: &Vec<Obstacle>, prev_z: i64, new_z: i64) -> (r: usize)
    ensures
        r == passed(obs@, prev_z as int, new_z as int, obs@.len()),
{
    let mut n: usize = 0;
    let mut i: usize = 0;
    while i < obs.len()
        invariant
            i <= obs@.len(),
            n == passed(obs@, prev_z as int, new_z as int, i as nat),
            n <= i,
        decreases obs@.len() - i,
    {
        if prev_z >= obs[i].z && new_z < obs[i].z {
            n = n + 1;
        }
        i = i + 1;
    }
    n
}

/// A point of the bounce ring: `offset` added to `p` in the cross-section.
pub open spec fn shifted(p: Vec3, offset: Vec2) -> Vec3 {
    Vec3 { x: (p.x + offset.x) as i64, y: (p.y + offset.y) as i64, z: p.z }
}

/// Ring offsets within the physics' bounds.
pub open spec fn ring_ok(offsets: Seq<Vec2>) -> bool {
    forall|k: int|
        0 <= k < offsets.len() ==> -PHYS_LIMIT <= #[trigger] offsets[k].x <= PHYS_LIMIT && -PHYS_LIMIT
            <= offsets[k].y <= PHYS_LIMIT
}

/// A point whose cross-section coordinates lie within the physics' bounds.
pub open spec fn cross_ok(p: Vec3) -> bool {
    -PHYS_LIMIT <= p.x <= PHYS_LIMIT && -PHYS_LIMIT <= p.y <= PHYS_LIMIT && vec3_ok(p)
}

/// The first of the ring's offsets, from index `k` on, at which the move from
/// `prev` to `new` passes through an obstacle.
pub open spec fn ring_contact(
    obs: Seq<Obstacle>,
    masks: Seq<AlphaMask>,
    prev: Vec3,
    new: Vec3,
    ring: Seq<Vec2>,
    k: int,
) -> Option<int>
    decreases ring.len() - k,
{
    if k < 0 || k >= ring.len() {
        None
    } else if touches(obs, masks, shifted(prev, ring[k]), shifted(new, ring[k])) {
        Some(k)
    } else {
        ring_contact(obs, masks, prev, new, ring, k + 1)
    }
}

/// The first of the ring's offsets at which the move from `prev` to `new`
/// passes through an obstacle: where the player bounces this tick.
pub fn first_contact(
    obs: &Vec<Obstacle>,
    masks: &Vec<AlphaMask>,
    prev: Vec3,
    new: Vec3,
    offsets: &Vec<Vec2>,
) -> (r: Option<usize>)
    requires
        scene_ok(obs@, masks@),
        ring_ok(offsets@),
        cross_ok(prev),
        cross_ok(new),
    ensures
        r matches Some(i) ==> i < offsets@.len() && touches(
            obs@,
            masks@,
            shifted(prev, offsets@[i as int]),
            shifted(new, offsets@[i as int]),
        ) && forall|k: int|
            0 <= k < i ==> !touches(
                obs@,
                masks@,
                shifted(prev, #[trigger] offsets@[k]),
                shifted(new, offsets@[k]),
            ),
        r is None ==> forall|k: int|
            0 <= k < offsets@.len() ==> !touches(
                obs@,
                masks@,
                shifted(prev, #[trigger] offsets@[k]),
                shifted(new, offsets@[k]),
            ),
        ring_contact(obs@, masks@, prev, new, offsets@, 0) == (match r {
            Some(i) => Some(i as int),
            None => None,
        }),
{
    let mut i: usize = 0;
    while i < offsets.len()
        invariant
            scene_ok(obs@, masks@),
            ring_ok(offsets@),
            cross_ok(prev),
            cross_ok(new),
            i <= offsets@.len(),
            forall|k: int|
                0 <= k < i ==> !touches(
                    obs@,
                    masks@,
                    shifted(prev, #[trigger] offsets@[k]),
                    shifted(new, offsets@[k]),
                ),
            ring_contact(obs@, masks@, prev, new, offsets@, 0) == ring_contact(
                obs@,
                masks@,
                prev,
                new,
                offsets@,
                i as int,
            ),
        decreases offsets@.len() - i,
    {
        let o = offsets[i];
        assert(ring_ok(offsets@));
        assert(-PHYS_LIMIT <= offsets@[i as int].x <= PHYS_LIMIT);
        let a = Vec3 { x: prev.x + o.x, y: prev.y + o.y, z: prev.z };
        let b = Vec3 { x: new.x + o.x, y: new.y + o.y, z: new.z };
        if passes_through(obs, masks, a, b) {
            return Some(i);
        }
        i = i + 1;
    }
    None
}

/// The best score after a run that scored `score`, and whether it is a new best.
pub fn record_score(score: i64, best: i64) -> (r: (i64, bool))
    ensures
        r.1 == (score > best),
        r.0 == (if score > best { score } else { best }),
{
    if score > best {
        (score, true)
    } else {
        (best, false)
    }
}

/// The run starts at the first steering input: a non-zero target velocity or a touch.
pub open spec fn starts_now(started: Option<i64>, target: Vec2, touching: bool) -> bool {
    started is None && (target.x != 0 || target.y != 0 || touching)
}

/// Whether this tick starts the run.
pub fn should_start(started: Option<i64>, target: Vec2, touching: bool) -> (r: bool)
    ensures
        r == starts_now(started, target, touching),
{
    started.is_none() && (target.x != 0 || target.y != 0 || touching)
}

/// A key press or a touch restarts the run once the finish ramp is complete.
pub fn restart_allowed(finished: Option<i64>) -> (r: bool)
    ensures
        r == (finished matches Some(t) && t > MILLIS),
{
    match finished {
        Some(t) => t > MILLIS,
        None => false,
    }
}

/// The camera after the player is gone, drifting for `dt` milliseconds: it
/// moves by its velocity, is held within `limit` of the axis, and its
/// velocity loses up to `deceleration * dt / 1000` of its length.
pub open spec fn drift(cam: Body, dt: int, deceleration: int, limit: int) -> Body {
    let moved = Vec2 {
        x: (cam.pos.x + scale_toward_zero(cam.vel.x as int, dt, MILLIS as int)) as i64,
        y: (cam.pos.y + scale_toward_zero(cam.vel.y as int, dt, MILLIS as int)) as i64,
    };
    let held = clamped(moved, limit);
    let slow = clamped3(cam.vel, deceleration * dt / MILLIS as int);
    Body {
        pos: Vec3 {
            x: held.x,
            y: held.y,
            z: (cam.pos.z + scale_toward_zero(cam.vel.z as int, dt, MILLIS as int)) as i64,
        },
        vel: Vec3 {
            x: (cam.vel.x - slow.x) as i64,
            y: (cam.vel.y - slow.y) as i64,
            z: (cam.vel.z - slow.z) as i64,
        },
        radius: cam.radius,
    }
}

/// Moves the camera of a run whose player is gone.
pub fn camera_drift(cam: Body, dt: i64, deceleration: i64, limit: i64) -> (r: Body)
    requires
        crate::physics::body_ok(cam),
        0 <= dt <= TICK_LIMIT,
        0 <= deceleration <= PHYS_LIMIT,
        0 <= limit <= PHYS_LIMIT,
    ensures
        r == drift(cam, dt as int, deceleration as int, limit as int),
        crate::physics::body_ok(Body { pos: Vec3 { x: r.pos.x, y: r.pos.y, z: cam.pos.z }, ..r }),
        cam.pos.z - PHYS_LIMIT <= r.pos.z <= cam.pos.z + PHYS_LIMIT,
{
    let moved = crate::physics::integrate(cam, dt);
    proof {
        crate::physics::lemma_shrink(cam.vel.x as int, dt as int);
        crate::physics::lemma_shrink(cam.vel.y as int, dt as int);
        crate::physics::lemma_shrink(cam.vel.z as int, dt as int);
        lemma_mul_abs_bound(deceleration as int, dt as int, PHYS_LIMIT as int, 1000);
        assert(0 <= deceleration * dt / 1000 <= PHYS_LIMIT) by (nonlinear_arith)
            requires
                0 <= deceleration * dt <= PHYS_LIMIT * 1000,
        ;
        assert(0 <= deceleration * dt) by (nonlinear_arith)
            requires
                0 <= deceleration,
                0 <= dt,
        ;
    }
    let held = clamp_len(Vec2 { x: moved.pos.x, y: moved.pos.y }, limit);
    let slow = clamp_len3(cam.vel, deceleration * dt / MILLIS);
    Body {
        pos: Vec3 { x: held.x, y: held.y, z: moved.pos.z },
        vel: Vec3 { x: cam.vel.x - slow.x, y: cam.vel.y - slow.y, z: cam.vel.z - slow.z },
        radius: cam.radius,
    }
}

/// Resolution of a random direction: its components lie in `-1000 ..= 1000`.
pub const UNIT: i64 = 1000;

/// The shake offset's timer after `dt` milliseconds, and whether the offset
/// is drawn anew: when the timer runs out it restarts at `period`.
pub open spec fn shake_timer(next: int, dt: int, period: int) -> (int, bool) {
    if next - dt < 0 {
        (period, true)
    } else {
        (next - dt, false)
    }
}

/// Advances the shake offset's timer; when it runs out, draws a new offset
/// within the unit disc (in thousandths).
pub fn shake_reroll(next: i64, dt: i64, period: i64, rng: &mut Rng) -> (r: (i64, Option<Vec2>))
    requires
        state_ok(old(rng).state),
        0 <= next <= DURATION_LIMIT,
        0 <= dt <= TICK_LIMIT,
        0 <= period <= DURATION_LIMIT,
    ensures
        (r.0 as int, r.1 is Some) == shake_timer(next as int, dt as int, period as int),
        r.1 is None ==> final(rng).state == old(rng).state,
        r.1 matches Some(o) ==> {
            &&& o.x as int == disc_draw(old(rng).state, UNIT as int, DISC_TRIES as nat).0
            &&& o.y as int == disc_draw(old(rng).state, UNIT as int, DISC_TRIES as nat).1
            &&& final(rng).state == disc_draw(old(rng).state, UNIT as int, DISC_TRIES as nat).2
            &&& o.x * o.x + o.y * o.y <= UNIT * UNIT
        },
        state_ok(final(rng).state),
{
    if next - dt < 0 {
        let (x, y) = draw_disc(rng, UNIT);
        (period, Some(Vec2 { x, y }))
    } else {
        (next - dt, None)
    }
}

/// A random axis for the bounce rotation: each component in `-1000 ..= 1000`
/// (a renderer normalises it; an all-zero axis means no rotation).
pub fn bounce_axis(rng: &mut Rng) -> (r: Vec3)
    requires
        state_ok(old(rng).state),
    ensures
        ({
            let s = old(rng).state;
            &&& r.x == -UNIT + step(s) % (2 * UNIT + 1) as u64
            &&& r.y == -UNIT + step(step(s)) % (2 * UNIT + 1) as u64
            &&& r.z == -UNIT + step(step(step(s))) % (2 * UNIT + 1) as u64
            &&& final(rng).state == step(step(step(s)))
        }),
        -UNIT <= r.x <= UNIT,
        -UNIT <= r.y <= UNIT,
        -UNIT <= r.z <= UNIT,
        state_ok(final(rng).state),
{
    let x = draw(rng, -UNIT, UNIT);
    let y = draw(rng, -UNIT, UNIT);
    let z = draw(rng, -UNIT, UNIT);
    Vec3 { x, y, z }
}

/// Milliseconds of movement-particle emission for a tick of `dt` milliseconds:
/// emission runs at full rate when falling at `fall_speed`.
pub open spec fn emission_time(dt: int, vz: int, fall_speed: int) -> int {
    dt * abs(vz) / fall_speed
}

/// The emission time for the player's movement particles this tick.
pub fn movement_emission(dt: i64, vz: i64, fall_speed: i64) -> (r: i64)
    requires
        0 <= dt <= TICK_LIMIT,
        -PHYS_LIMIT <= vz <= PHYS_LIMIT,
        1 <= fall_speed,
    ensures
        r == emission_time(dt as int, vz as int, fall_speed as int),
        r >= 0,
{
    let a = if vz < 0 { -vz } else { vz };
    proof {
        lemma_mul_abs_bound(dt as int, a as int, 1000, PHYS_LIMIT as int);
        assert(0 <= dt * a) by (nonlinear_arith)
            requires
                0 <= dt,
                0 <= a,
        ;
    }
    dt * a / fall_speed
}

/// Largest ambience volume setting.
pub const VOLUME_LIMIT: i64 = 0x1_0000;

/// The wind loop's volume: the cross-section speed over `max_speed` times
/// `wind_move`, plus the fall speed over `fall_speed` times `wind_fall`
/// (lengths rounded up, each term rounded down).
pub open spec fn wind_volume(v: Vec3, max_speed: int, fall_speed: int, wind_move: int, wind_fall: int) -> int {
    ceil_sqrt_of(len2_xy(v.x as int, v.y as int)) * wind_move / max_speed + abs(v.z as int) * wind_fall
        / fall_speed
}

/// The swim loop's volume: the cross-section speed over `max_speed` times `swim`.
pub open spec fn swim_volume(v: Vec3, max_speed: int, swim: int) -> int {
    ceil_sqrt_of(len2_xy(v.x as int, v.y as int)) * swim / max_speed
}

/// The wind and swim ambience volumes for a player moving at `v`.
pub fn ambience(v: Vec3, max_speed: i64, fall_speed: i64, wind_move: i64, wind_fall: i64, swim: i64) -> (r: (
    i64,
    i64,
))
    requires
        -PHYS_LIMIT <= v.x <= PHYS_LIMIT,
        -PHYS_LIMIT <= v.y <= PHYS_LIMIT,
        -PHYS_LIMIT <= v.z <= PHYS_LIMIT,
        1 <= max_speed,
        1 <= fall_speed,
        0 <= wind_move <= VOLUME_LIMIT,
        0 <= wind_fall <= VOLUME_LIMIT,
        0 <= swim <= VOLUME_LIMIT,
    ensures
        r.0 == wind_volume(v, max_speed as int, fall_speed as int, wind_move as int, wind_fall as int),
        r.1 == swim_volume(v, max_speed as int, swim as int),
{
    proof {
        lemma_mul_abs_bound(v.x as int, v.x as int, PHYS_LIMIT as int, PHYS_LIMIT as int);
        lemma_mul_abs_bound(v.y as int, v.y as int, PHYS_LIMIT as int, PHYS_LIMIT as int);
    }
    let n2i: i128 = v.x as i128 * v.x as i128 + v.y as i128 * v.y as i128;
    assert(0 <= n2i) by (nonlinear_arith)
        requires
            n2i == v.x * v.x + v.y * v.y,
    ;
    let n2 = n2i as u64;
    assert(n2 as int == len2_xy(v.x as int, v.y as int));
    let speed = ceil_sqrt(n2);
    proof {
        crate::physics::lemma_ceil_sqrt_unique(n2 as int, speed as int);
        lemma_mul_abs_bound(speed as int, wind_move as int, 0x1_0000_0000, VOLUME_LIMIT as int);
        lemma_mul_abs_bound(speed as int, swim as int, 0x1_0000_0000, VOLUME_LIMIT as int);
    }
    let fall = if v.z < 0 { -v.z } else { v.z };
    proof {
        lemma_mul_abs_bound(fall as int, wind_fall as int, PHYS_LIMIT as int, VOLUME_LIMIT as int);
        assert(0 <= speed * wind_move && 0 <= speed * swim && 0 <= fall * wind_fall) by (nonlinear_arith)
            requires
                0 <= speed,
                0 <= fall,
                0 <= wind_move,
                0 <= swim,
                0 <= wind_fall,
        ;
    }
    let wind = speed as i64 * wind_move / max_speed + fall * wind_fall / fall_speed;
    let sw = speed as i64 * swim / max_speed;
    (wind, sw)
}

} // verus!
