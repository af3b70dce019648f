//! Particle emission on an integer clock: a continuous spawner emits one
//! particle per period of accumulated time, back-dating each to the moment it
//! was due, so the long-run rate does not depend on the step sizes; a burst
//! emits one particle at once. Expired particles are culled.
use vstd::prelude::*;
use crate::arith::lemma_mul_abs_bound;
use crate::geom::{Vec3, COORD_LIMIT, vec3_ok};
use crate::rng::{Rng, MODULUS, pick, state_ok, step};

verus! {

/// Largest time step, period, lifetime or jitter.
pub const TIME_LIMIT: i64 = 0x2000_0000;

/// Largest clock reading.
pub const CLOCK_LIMIT: i64 = 0x4_0000_0000_0000;

/// Largest jitter of a velocity component, a size, or a color component.
pub const JITTER_LIMIT: i64 = 0x2000_0000;

/// How a spawner's particles look and behave; times are in clock ticks.
#[derive(Clone, Copy, Debug)]
pub struct SpawnerConfig {
    /// Ticks between two particles of continuous emission.
    pub period: i64,
    /// Shortest lifetime.
    pub life: i64,
    /// Lifetimes reach up to `life + extra_life`, exclusive.
    pub extra_life: i64,
    /// Smallest size.
    pub size: i64,
    /// Sizes reach up to `size + extra_size`, exclusive.
    pub extra_size: i64,
    /// Each velocity component moves by less than this, the cross-section part within a disc.
    pub extra_vel: i64,
    /// Bound on the hue shift, in thousandths of a turn.
    pub extra_hue: i64,
    /// Bound on the saturation shift, in thousandths.
    pub extra_saturation: i64,
    /// Bound on the lightness shift, in thousandths.
    pub extra_lightness: i64,
}

/// One particle.
#[derive(Clone, Copy, Debug)]
pub struct Instance {
    pub pos: Vec3,
    pub vel: Vec3,
    pub start_time: i64,
    pub end_time: i64,
    pub size: i64,
    pub hue_shift: i64,
    pub saturation_shift: i64,
    pub lightness_shift: i64,
}

/// An emission point.
pub struct ParticleSpawner {
    pub pos: Vec3,
    pub vel: Vec3,
    /// Ticks until the next particle of continuous emission is due.
    pub next: i64,
    pub config: SpawnerConfig,
}

/// A configuration within bounds.
pub open spec fn spawner_config_ok(c: SpawnerConfig) -> bool {
    &&& 1 <= c.period <= TIME_LIMIT
    &&& 0 <= c.life <= TIME_LIMIT
    &&& 0 <= c.extra_life <= TIME_LIMIT
    &&& 0 <= c.size <= JITTER_LIMIT
    &&& 0 <= c.extra_size <= JITTER_LIMIT
    &&& 0 <= c.extra_vel <= JITTER_LIMIT
    &&& 0 <= c.extra_hue <= JITTER_LIMIT
    &&& 0 <= c.extra_saturation <= JITTER_LIMIT
    &&& 0 <= c.extra_lightness <= JITTER_LIMIT
}

/// A spawner within bounds, its next particle due within one period.
pub open spec fn spawner_ok(s: ParticleSpawner) -> bool {
    emitter_ok(s) && 0 <= s.next <= s.config.period
}

/// An emission point within bounds: it may move by a jitter and stay in the world.
pub open spec fn emitter_ok(s: ParticleSpawner) -> bool {
    &&& spawner_config_ok(s.config)
    &&& vec3_ok(s.pos)
    &&& -COORD_LIMIT + JITTER_LIMIT <= s.vel.x <= COORD_LIMIT - JITTER_LIMIT
    &&& -COORD_LIMIT + JITTER_LIMIT <= s.vel.y <= COORD_LIMIT - JITTER_LIMIT
    &&& -COORD_LIMIT + JITTER_LIMIT <= s.vel.z <= COORD_LIMIT - JITTER_LIMIT
}

/// Number of particles emitted when the time until the next one stands at `g`
/// after subtracting the step: one for each period needed to bring it back to
/// non-negative.
pub open spec fn emitted(g: int, period: int) -> nat
    decreases (if g >= 0 { 0 } else { -g }),
{
    if g >= 0 || period <= 0 {
        0
    } else {
        1 + emitted(g + period, period)
    }
}

/// Time until the next particle after emitting from `g`.
pub open spec fn settled(g: int, period: int) -> int
    decreases (if g >= 0 { 0 } else { -g }),
{
    if g >= 0 || period <= 0 {
        g
    } else {
        settled(g + period, period)
    }
}

proof fn lemma_settled_range(g: int, period: int)
    requires
        period >= 1,
        g >= -0x10_0000_0000_0000,
    ensures
        g >= 0 ==> settled(g, period) == g,
        g < 0 ==> 0 <= settled(g, period) < period,
        emitted(g, period) * period + g == settled(g, period),
    decreases (if g >= 0 { 0 } else { -g }),
{
    if g >= 0 {
        assert(emitted(g, period) * period == 0) by (nonlinear_arith)
            requires
                emitted(g, period) == 0,
        ;
    } else {
        lemma_settled_range(g + period, period);
        assert(emitted(g, period) * period == period + emitted(g + period, period) * period)
            by (nonlinear_arith)
            requires
                emitted(g, period) == 1 + emitted(g + period, period),
        ;
    }
}

/// Emission composes: stepping by `a` then by `b` emits as many particles, and
/// leaves the same time until the next one, as stepping once by `a + b`.
pub proof fn lemma_emission_additive(next: int, a: int, b: int, period: int)
    requires
        period >= 1,
        a >= 0,
        b >= 0,
    ensures
        emitted(next - a - b, period) == emitted(next - a, period) + emitted(
            settled(next - a, period) - b,
            period,
        ),
        settled(next - a - b, period) == settled(settled(next - a, period) - b, period),
    decreases (if next - a >= 0 { 0 } else { a - next }),
{
    if next - a < 0 {
        lemma_emission_additive(next + period, a, b, period);
        assert(next + period - a - b == next - a - b + period);
    }
}

/// A draw in `0 .. extra` from state `s`, or `0` and no draw when `extra` is `0`.
pub open spec fn pick_below(s: u64, extra: int) -> (int, u64) {
    if extra == 0 {
        (0, s)
    } else {
        pick(s, 0, extra - 1)
    }
}

/// A point of the disc of radius `extra` from state `s`: up to `tries` pairs
/// of draws in `-extra ..= extra`, the first pair inside the disc kept; the
/// center when none is.
#[verifier::opaque]
pub open spec fn disc_draw(s: u64, extra: int, tries: nat) -> (int, int, u64)
    decreases tries,
{
    if tries == 0 {
        (0, 0, s)
    } else {
        let (dx, s1) = pick(s, -extra, extra);
        let (dy, s2) = pick(s1, -extra, extra);
        if dx * dx + dy * dy <= extra * extra {
            (dx, dy, s2)
        } else {
            disc_draw(s2, extra, (tries - 1) as nat)
        }
    }
}

proof fn lemma_disc_step(s: u64, extra: int, n: nat, dx: int, dy: int, s2: u64)
    requires
        n > 0,
        (dx, step(s)) == pick(s, -extra, extra),
        (dy, s2) == pick(step(s), -extra, extra),
    ensures
        dx * dx + dy * dy <= extra * extra ==> disc_draw(s, extra, n).0 == dx && disc_draw(s, extra, n).1 == dy
            && disc_draw(s, extra, n).2 == s2,
        dx * dx + dy * dy > extra * extra ==> disc_draw(s, extra, n) == disc_draw(s2, extra, (n - 1) as nat),
{
    reveal(disc_draw);
}

proof fn lemma_disc_none(s: u64, extra: int)
    ensures
        disc_draw(s, extra, 0).0 == 0 && disc_draw(s, extra, 0).1 == 0 && disc_draw(s, extra, 0).2 == s,
{
    reveal(disc_draw);
}

/// Number of pairs a disc draw tries.
pub const DISC_TRIES: u32 = 8;

/// Draws a value in `lo ..= hi`.
pub(crate) fn draw(rng: &mut Rng, lo: i64, hi: i64) -> (r: i64)
    requires
        state_ok(old(rng).state),
        lo <= hi,
        hi - lo < MODULUS,
    ensures
        (r as int, final(rng).state) == pick(old(rng).state, lo as int, hi as int),
        lo <= r <= hi,
        state_ok(final(rng).state),
{
    rng.between(lo, hi)
}

/// Draws a value in `0 .. extra`, or `0` when `extra` is `0`.
fn draw_below(rng: &mut Rng, extra: i64) -> (r: i64)
    requires
        state_ok(old(rng).state),
        0 <= extra <= JITTER_LIMIT,
    ensures
        (r as int, final(rng).state) == pick_below(old(rng).state, extra as int),
        extra == 0 ==> r == 0,
        extra > 0 ==> 0 <= r < extra,
        state_ok(final(rng).state),
{
    if extra == 0 {
        0
    } else {
        draw(rng, 0, extra - 1)
    }
}

/// Tries to draw a point of the disc of radius `extra`; falls back to the center.
#[verifier::rlimit(50)]
pub(crate) fn draw_disc(rng: &mut Rng, extra: i64) -> (r: (i64, i64))
    requires
        state_ok(old(rng).state),
        0 <= extra <= JITTER_LIMIT,
    ensures
        r.0 as int == disc_draw(old(rng).state, extra as int, DISC_TRIES as nat).0,
        r.1 as int == disc_draw(old(rng).state, extra as int, DISC_TRIES as nat).1,
        final(rng).state == disc_draw(old(rng).state, extra as int, DISC_TRIES as nat).2,
        r.0 * r.0 + r.1 * r.1 <= extra * extra,
        -extra <= r.0 <= extra,
        -extra <= r.1 <= extra,
        state_ok(final(rng).state),
{
    let ghost s0 = rng.state;
    let mut tries: u32 = 0;
    let mut found: (i64, i64) = (0, 0);
    let mut done = false;
    while tries < DISC_TRIES && !done
        invariant
            state_ok(rng.state),
            0 <= extra <= JITTER_LIMIT,
            tries <= DISC_TRIES,
            !done ==> disc_draw(s0, extra as int, DISC_TRIES as nat) == disc_draw(
                rng.state,
                extra as int,
                (DISC_TRIES - tries) as nat,
            ),
            done ==> found.0 as int == disc_draw(s0, extra as int, DISC_TRIES as nat).0
                && found.1 as int == disc_draw(s0, extra as int, DISC_TRIES as nat).1
                && rng.state == disc_draw(s0, extra as int, DISC_TRIES as nat).2,
            !done ==> found.0 == 0 && found.1 == 0,
            found.0 * found.0 + found.1 * found.1 <= extra * extra,
            -extra <= found.0 <= extra,
            -extra <= found.1 <= extra,
        decreases DISC_TRIES - tries,
    {
        let ghost before = rng.state;
        let ghost n: nat = (DISC_TRIES - tries) as nat;
        let dx = draw(rng, -extra, extra);
        let dy = draw(rng, -extra, extra);
        proof {
            lemma_disc_step(before, extra as int, n, dx as int, dy as int, rng.state);
            lemma_mul_abs_bound(dx as int, dx as int, JITTER_LIMIT as int, JITTER_LIMIT as int);
            lemma_mul_abs_bound(dy as int, dy as int, JITTER_LIMIT as int, JITTER_LIMIT as int);
            lemma_mul_abs_bound(extra as int, extra as int, JITTER_LIMIT as int, JITTER_LIMIT as int);
        }
        if dx as i128 * dx as i128 + dy as i128 * dy as i128 <= extra as i128 * extra as i128 {
            found = (dx, dy);
            done = true;
        }
        tries = tries + 1;
    }
    proof {
        lemma_disc_none(rng.state, extra as int);
    }
    found
}

/// A new particle of spawner `s` created at time `t` from generator state
/// `r`, and the state after its draws: lifetime, velocity jitter (a disc draw
/// for the cross-section, then the depth), size, hue, saturation, lightness.
pub open spec fn created(s: ParticleSpawner, t: int, r: u64) -> (Instance, u64) {
    let c = s.config;
    let (l, r1) = pick_below(r, c.extra_life as int);
    let (dx, dy, r2) = disc_draw(r1, c.extra_vel as int, DISC_TRIES as nat);
    let (dz, r3) = pick(r2, -c.extra_vel as int, c.extra_vel as int);
    let (sz, r4) = pick_below(r3, c.extra_size as int);
    let (h, r5) = pick(r4, -c.extra_hue as int, c.extra_hue as int);
    let (sa, r6) = pick(r5, -c.extra_saturation as int, c.extra_saturation as int);
    let (li, r7) = pick(r6, -c.extra_lightness as int, c.extra_lightness as int);
    (
        Instance {
            pos: s.pos,
            vel: Vec3 {
                x: (s.vel.x + dx) as i64,
                y: (s.vel.y + dy) as i64,
                z: (s.vel.z + dz) as i64,
            },
            start_time: t as i64,
            end_time: (t + c.life + l) as i64,
            size: (c.size + sz) as i64,
            hue_shift: h as i64,
            saturation_shift: sa as i64,
            lightness_shift: li as i64,
        },
        r7,
    )
}

/// What a new particle of spawner `s` created at time `t` always satisfies.
pub open spec fn fresh(s: ParticleSpawner, t: int, p: Instance) -> bool {
    let c = s.config;
    &&& p.pos == s.pos
    &&& p.start_time == t
    &&& c.life <= p.end_time - p.start_time <= c.life + c.extra_life
    &&& (c.extra_life > 0 ==> p.end_time - p.start_time < c.life + c.extra_life)
    &&& c.size <= p.size <= c.size + c.extra_size
    &&& (c.extra_size > 0 ==> p.size < c.size + c.extra_size)
    &&& (c.extra_size == 0 ==> p.size == c.size)
    &&& (p.vel.x - s.vel.x) * (p.vel.x - s.vel.x) + (p.vel.y - s.vel.y) * (p.vel.y - s.vel.y)
        <= c.extra_vel * c.extra_vel
    &&& -c.extra_vel <= p.vel.z - s.vel.z <= c.extra_vel
    &&& -c.extra_hue <= p.hue_shift <= c.extra_hue
    &&& -c.extra_saturation <= p.saturation_shift <= c.extra_saturation
    &&& -c.extra_lightness <= p.lightness_shift <= c.extra_lightness
}

impl ParticleSpawner {
    /// A spawner at rest at the origin whose first particle is due at once.
    pub fn new(config: SpawnerConfig) -> (r: ParticleSpawner)
        ensures
            r.config == config,
            r.next == 0,
            r.pos == (Vec3 { x: 0, y: 0, z: 0 }),
            r.vel == (Vec3 { x: 0, y: 0, z: 0 }),
    {
        ParticleSpawner { pos: Vec3 { x: 0, y: 0, z: 0 }, vel: Vec3 { x: 0, y: 0, z: 0 }, next: 0, config }
    }

    /// A particle at the emission point, born at `now`, with jittered attributes.
    pub fn create(&self, now: i64, rng: &mut Rng) -> (p: Instance)
        requires
            emitter_ok(*self),
            state_ok(old(rng).state),
            -CLOCK_LIMIT <= now <= CLOCK_LIMIT,
        ensures
            (p, final(rng).state) == created(*self, now as int, old(rng).state),
            fresh(*self, now as int, p),
            state_ok(final(rng).state),
    {
        let c = self.config;
        let lifetime = c.life + draw_below(rng, c.extra_life);
        let (dx, dy) = draw_disc(rng, c.extra_vel);
        let dz = draw(rng, -c.extra_vel, c.extra_vel);
        let size = c.size + draw_below(rng, c.extra_size);
        let hue = draw(rng, -c.extra_hue, c.extra_hue);
        let sat = draw(rng, -c.extra_saturation, c.extra_saturation);
        let light = draw(rng, -c.extra_lightness, c.extra_lightness);
        Instance {
            pos: self.pos,
            vel: Vec3 { x: self.vel.x + dx, y: self.vel.y + dy, z: self.vel.z + dz },
            start_time: now,
            end_time: now + lifetime,
            size,
            hue_shift: hue,
            saturation_shift: sat,
            lightness_shift: light,
        }
    }

    /// Emits one particle at once.
    pub fn spawn(&self, now: i64, rng: &mut Rng, out: &mut Vec<Instance>)
        requires
            spawner_ok(*self),
            state_ok(old(rng).state),
            -CLOCK_LIMIT <= now <= CLOCK_LIMIT,
        ensures
            final(out)@.len() == old(out)@.len() + 1,
            final(out)@.subrange(0, old(out)@.len() as int) == old(out)@,
            fresh(*self, now as int, final(out)@.last()),
            (final(out)@.last(), final(rng).state) == created(*self, now as int, old(rng).state),
            state_ok(final(rng).state),
    {
        let p = self.create(now, rng);
        out.push(p);
        assert(out@.subrange(0, out@.len() - 1) == old(out)@);
    }

    /// Advances continuous emission by `dt` ticks at clock reading `now`: one
    /// particle for each period that came due, each back-dated to when it was due.
    pub fn update(&mut self, dt: i64, now: i64, rng: &mut Rng, out: &mut Vec<Instance>)
        requires
            spawner_ok(*old(self)),
            state_ok(old(rng).state),
            0 <= dt <= TIME_LIMIT,
            -CLOCK_LIMIT + TIME_LIMIT <= now <= CLOCK_LIMIT,
        ensures
            spawner_ok(*final(self)),
            final(self).pos == old(self).pos,
            final(self).vel == old(self).vel,
            final(self).config == old(self).config,
            final(self).next == settled(old(self).next - dt, old(self).config.period as int),
            final(out)@.len() == old(out)@.len() + emitted(old(self).next - dt, old(self).config.period as int),
            final(out)@.subrange(0, old(out)@.len() as int) == old(out)@,
            forall|k: int|
                0 <= k < final(out)@.len() - old(out)@.len() ==> fresh(
                    *old(self),
                    now + (old(self).next - dt) + k * old(self).config.period,
                    #[trigger] final(out)@[old(out)@.len() + k],
                ),
            state_ok(final(rng).state),
    {
        let ghost start = out@;
        let ghost g0 = self.next - dt;
        let period = self.config.period;
        self.next = self.next - dt;
        proof {
            lemma_settled_range(g0, period as int);
        }
        let mut k: usize = 0;
        while self.next < 0
            invariant
                spawner_config_ok(self.config),
                period == self.config.period,
                self.pos == old(self).pos,
                self.vel == old(self).vel,
                self.config == old(self).config,
                spawner_ok(*old(self)),
                state_ok(rng.state),
                -CLOCK_LIMIT + TIME_LIMIT <= now <= CLOCK_LIMIT,
                0 <= dt <= TIME_LIMIT,
                emitter_ok(*self),
                k <= 2 * TIME_LIMIT,
                g0 == old(self).next - dt,
                self.next == g0 + k * period,
                g0 <= self.next,
                self.next <= period,
                settled(self.next as int, period as int) == settled(g0, period as int),
                emitted(g0, period as int) == k + emitted(self.next as int, period as int),
                out@.len() == start.len() + k,
                out@.subrange(0, start.len() as int) == start,
                forall|j: int|
                    0 <= j < k ==> fresh(*old(self), now + g0 + j * period, #[trigger] out@[start.len() + j]),
            decreases (if self.next < 0 { -self.next } else { 0 }),
        {
            proof {
                assert(-TIME_LIMIT <= g0);
                assert(now + self.next >= -CLOCK_LIMIT - TIME_LIMIT);
            }
            let p = self.create(now + self.next, rng);
            assert(fresh(*old(self), now + g0 + k * period, p));
            out.push(p);
            self.next = self.next + period;
            proof {
                assert((k + 1) * period == k * period + period) by (nonlinear_arith);
                assert(k + 1 <= 2 * TIME_LIMIT) by (nonlinear_arith)
                    requires
                        (k + 1) * period == self.next - g0,
                        self.next < period + period,
                        period <= TIME_LIMIT,
                        g0 >= -TIME_LIMIT,
                        period >= 1,
                ;
                assert(out@[start.len() + k] == p);
                assert(out@.subrange(0, start.len() as int) == start);
            }
            k = k + 1;
        }
        proof {
            lemma_settled_range(self.next as int, period as int);
        }
    }
}

/// The particles still alive at clock reading `now`.
pub open spec fn alive(now: int) -> spec_fn(Instance) -> bool {
    |p: Instance| p.end_time > now
}

/// Drops the particles that have expired by `now`.
pub fn cull(instances: &Vec<Instance>, now: i64) -> (r: Vec<Instance>)
    ensures
        r@ == instances@.filter(alive(now as int)),
{
    let mut r: Vec<Instance> = Vec::new();
    let mut i: usize = 0;
    while i < instances.len()
        invariant
            i <= instances@.len(),
            r@ == instances@.subrange(0, i as int).filter(alive(now as int)),
        decreases instances@.len() - i,
    {
        proof {
            instances@.subrange(0, i as int).lemma_filter_push(instances@[i as int], alive(now as int));
            assert(instances@.subrange(0, i + 1) == instances@.subrange(0, i as int).push(instances@[i as int]));
        }
        if instances[i].end_time > now {
            r.push(instances[i]);
        }
        i = i + 1;
    }
    assert(instances@.subrange(0, i as int) == instances@);
    r
}

} // verus!
