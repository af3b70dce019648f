//! One simulation tick of a run: the verified steps of the game, in order,
//! with the side effects they call for returned as events for the frame loop
//! to perform (sounds, particles, camera shake offsets, saving).
use vstd::prelude::*;
use crate::arith::abs;
use crate::game::{
    advance_ramp, drift, follow_position, passed, ramp_after, ring_contact, starts_now, camera_drift, camera_follow, count_passed, first_contact, record_score,
    restart_allowed, ring_ok, should_start, DURATION_LIMIT, RAMP_LIMIT,
};
use crate::geom::{Vec2, Vec3, len2_xy, vec3_ok};
use crate::hittest::{AlphaMask, Obstacle, dies, scene_ok, player_dies};
use crate::physics::{
    bounce_off, body_ok, bounce_velocity, find_coin, first_coin, integrate, lemma_travelled_bounds,
    motion_ok, respond, respond_body, travelled, Body, Motion, MILLIS, penetrates, is_ceil_sqrt,
    PHYS_LIMIT,
};
use crate::rng::{Rng, state_ok};
use crate::scheduler::{config_ok, content_ok, lemma_refresh_idempotent, obstacle_frontier, refreshed, Content, ContentConfig, ContentView, DEPTH_LIMIT};

verus! {

/// Longest tick a run accepts, in milliseconds. With the tube at most half the
/// cross-section bound across, a tick this long keeps the moved player, its
/// velocity saturated at that bound, within 64-bit coordinate bounds; a frame
/// loop with a longer frame runs several ticks.
pub const STEP_LIMIT: i64 = 500;

/// Largest score, in thousandths of a point.
pub const SCORE_LIMIT: i64 = 0x1000_0000_0000_0000;

/// Tuning values of a run; durations in milliseconds.
#[derive(Clone, Copy, Debug)]
pub struct Config {
    pub motion: Motion,
    pub start_time: i64,
    pub finish_time: i64,
    pub bounce_time: i64,
    pub shake_time: i64,
    pub death_distance: i64,
    pub coin_radius: i64,
    pub camera_distance: i64,
    /// Fraction, in thousandths, of the player's cross-section position the camera follows.
    pub horizontal_movement: i64,
    pub camera_acceleration: i64,
    /// Score, in thousandths of a point, for a coin.
    pub coin_score: i64,
    /// Score, in thousandths of a point, per unit fallen.
    pub distance_score: i64,
}

/// What the player asks for this tick.
#[derive(Clone, Copy, Debug)]
pub struct Controls {
    /// Target cross-section velocity.
    pub target: Vec2,
    /// A touch or drag is in progress.
    pub touching: bool,
}

/// Side effects a tick calls for.
#[derive(Clone, Copy, Debug, PartialEq, Eq, Structural)]
pub enum Event {
    /// The run started: switch the music.
    Started,
    /// The player bounced at this point: particles, a hit sound, a shake.
    Bounced(Vec3),
    /// A coin was picked up here: particles and a coin sound.
    Coin(Vec3),
    /// The player passed this many obstacles.
    Passed(usize),
    /// The player died here: particles and a shake.
    Died(Vec3),
    /// The run ended with this best score, a new one or not: save it, play the death sound.
    Finished(i64, bool),
}

/// The state of a run.
pub struct GameState {
    pub player: Option<Body>,
    /// The camera's position and, once the player is gone, its drift velocity.
    pub camera: Body,
    pub content: Content,
    /// Start ramp in thousandths, once the run has started.
    pub started: Option<i64>,
    /// Finish ramp in thousandths, once the run has ended.
    pub finished: Option<i64>,
    /// Progress of the bounce animation in thousandths, while it plays.
    pub bounce: Option<i64>,
    /// Milliseconds of camera shake left.
    pub shake_left: i64,
    pub money: u64,
    /// Score in thousandths of a point.
    pub score: i64,
    pub best_score: i64,
    pub death_location: Option<Vec3>,
}

/// Tuning values within bounds.
pub open spec fn run_config_ok(t: Config) -> bool {
    &&& motion_ok(t.motion)
    &&& 2 * t.motion.tube_radius <= PHYS_LIMIT
    &&& 1 <= t.start_time <= DURATION_LIMIT
    &&& 1 <= t.finish_time <= DURATION_LIMIT
    &&& 1 <= t.bounce_time <= DURATION_LIMIT
    &&& 0 <= t.shake_time <= DURATION_LIMIT
    &&& 0 <= t.death_distance <= PHYS_LIMIT
    &&& 2 * t.coin_radius <= PHYS_LIMIT
    &&& 0 <= t.coin_radius
    &&& -PHYS_LIMIT <= t.camera_distance <= PHYS_LIMIT
    &&& 0 <= t.horizontal_movement <= MILLIS
    &&& 0 <= t.camera_acceleration <= PHYS_LIMIT
    &&& 0 <= t.coin_score <= PHYS_LIMIT
    &&& 0 <= t.distance_score <= PHYS_LIMIT
}

/// A run whose values lie within the bounds that one tick needs.
pub open spec fn game_ok(s: GameState, t: Config) -> bool {
    &&& (s.player matches Some(b) ==> body_ok(b) && b.radius < t.motion.tube_radius && 2 * b.radius
        <= PHYS_LIMIT && -(DEPTH_LIMIT / 2) <= b.pos.z <= DEPTH_LIMIT / 2)
    &&& body_ok(s.camera)
    &&& 2 * s.camera.radius < 2 * t.motion.tube_radius
    &&& -(DEPTH_LIMIT / 2) <= s.camera.pos.z <= DEPTH_LIMIT / 2
    &&& content_ok(s.content@)
    &&& (s.started matches Some(v) ==> 0 <= v <= RAMP_LIMIT / 2)
    &&& (s.finished matches Some(v) ==> 0 <= v <= RAMP_LIMIT / 2)
    &&& (s.bounce matches Some(v) ==> 0 <= v < MILLIS)
    &&& 0 <= s.shake_left <= DURATION_LIMIT
    &&& s.money < u64::MAX
    &&& 0 <= s.score <= SCORE_LIMIT
    &&& 0 <= s.best_score <= SCORE_LIMIT
}

/// The start ramp as the steering target's scale, in thousandths.
pub open spec fn ramp_of(started: Option<i64>) -> int {
    match started {
        Some(v) => if v > MILLIS {
            MILLIS as int
        } else {
            v as int
        },
        None => 0,
    }
}

/// A running ramp advanced by `dt` milliseconds.
pub open spec fn ramp_step(r: Option<i64>, dt: int, duration: int) -> Option<i64> {
    match r {
        Some(v) => Some(ramp_after(v as int, dt, duration) as i64),
        None => None,
    }
}

/// The bounce animation advanced by `dt` milliseconds; it ends at a whole step.
pub open spec fn bounce_after(b: Option<i64>, dt: int, duration: int) -> Option<i64> {
    match b {
        Some(v) => if v + dt * MILLIS / duration >= MILLIS {
            None
        } else {
            Some((v + dt * MILLIS / duration) as i64)
        },
        None => None,
    }
}

/// Shake time left after `dt` milliseconds.
pub open spec fn shake_after(left: int, dt: int) -> int {
    if left > dt {
        left - dt
    } else {
        0
    }
}

/// A score held to its bound.
pub open spec fn capped(v: int) -> int {
    if v > SCORE_LIMIT {
        SCORE_LIMIT as int
    } else {
        v
    }
}

/// Score for falling at vertical speed `vz` for `dt` milliseconds.
pub open spec fn fall_gain(vz: int, dt: int, rate: int) -> int {
    abs(vz) * dt * rate / MILLIS as int
}

/// What the player's part of a tick gives.
pub struct MoveOutcome {
    pub player: Option<Body>,
    pub camera: Body,
    pub started: Option<i64>,
    pub bounce: Option<i64>,
    pub shake_left: int,
    pub score: int,
    pub death_location: Option<Vec3>,
    pub events: Seq<Event>,
}

/// The player's part of a tick, for a living body `b` and obstacles `obs`,
/// starting from the given ramp, score, bounce, shake and death location: the
/// run starts at the first input; the body is steered, falls, meets the tube
/// wall and moves; the score grows with the fall; passes are counted; the
/// camera follows. Then, sampled from the position after the wall's response
/// to the moved one, the player dies on a fatal obstacle, or else bounces off
/// the first obstacle touched at a ring offset.
pub open spec fn move_outcome(
    started: Option<i64>,
    score: int,
    bounce: Option<i64>,
    shake: int,
    death_location: Option<Vec3>,
    obs: Seq<Obstacle>,
    b: Body,
    c: Controls,
    t: Config,
    masks: Seq<AlphaMask>,
    ring: Seq<Vec2>,
    dt: int,
) -> MoveOutcome {
    let starting = starts_now(started, c.target, c.touching);
    let st = if starting { Some(0i64) } else { started };
    let (hit, bounced) = respond(b, c.target, ramp_of(st), st is Some, t.motion, dt);
    let moved = travelled(hit, dt);
    let np = passed(obs, hit.pos.z as int, moved.pos.z as int, obs.len());
    let died = dies(obs, masks, hit.pos, moved.pos, t.death_distance as int);
    let contact = if died {
        None
    } else {
        ring_contact(obs, masks, hit.pos, moved.pos, ring, 0)
    };
    MoveOutcome {
        player: if died {
            None
        } else {
            Some(
                Body {
                    vel: match contact {
                        Some(k) => bounce_velocity(
                            moved.vel,
                            Vec2 { x: (-ring[k].x) as i64, y: (-ring[k].y) as i64 },
                            t.motion.bounce_speed as int,
                        ),
                        None => moved.vel,
                    },
                    ..moved
                },
            )
        },
        camera: Body {
            pos: follow_position(moved.pos, t.horizontal_movement as int, t.camera_distance as int),
            vel: moved.vel,
            radius: b.radius,
        },
        started: st,
        bounce: if bounced || contact is Some {
            Some(0)
        } else {
            bounce
        },
        shake_left: if bounced || died || contact is Some {
            t.shake_time as int
        } else {
            shake
        },
        score: capped(score + fall_gain(moved.vel.z as int, dt, t.distance_score as int)),
        death_location: if died {
            Some(moved.pos)
        } else {
            death_location
        },
        events: (if starting {
            seq![Event::Started]
        } else {
            seq![]
        }) + (if bounced {
            seq![Event::Bounced(moved.pos)]
        } else {
            seq![]
        }) + (if np > 0 {
            seq![Event::Passed(np as usize)]
        } else {
            seq![]
        }) + (if died {
            seq![Event::Died(moved.pos)]
        } else if contact is Some {
            seq![Event::Bounced(moved.pos)]
        } else {
            seq![]
        }),
    }
}

/// Everything a tick decides, before the content refresh.
pub struct Outcome {
    pub player: Option<Body>,
    pub camera: Body,
    pub started: Option<i64>,
    pub finished: Option<i64>,
    pub bounce: Option<i64>,
    pub shake_left: int,
    pub money: int,
    pub score: int,
    pub best_score: int,
    pub death_location: Option<Vec3>,
    /// The coins handed to the content refresh.
    pub coins: Seq<Vec3>,
    pub events: Seq<Event>,
}

/// The run ends this tick: the player is gone and the finish ramp has not begun.
pub open spec fn ending(o: GameState) -> bool {
    o.finished is None && o.player is None
}

/// One tick of `dt` milliseconds of run `o`. The ramps, shake and bounce
/// animation advance; a run whose player is gone ends, keeping the better of
/// its score (in whole points) and the best score. While the player lives, it
/// picks up the first coin within reach, then moves (see `move_outcome`);
/// once it is gone, the camera drifts.
pub open spec fn expected(
    o: GameState,
    c: Controls,
    t: Config,
    masks: Seq<AlphaMask>,
    ring: Seq<Vec2>,
    dt: int,
) -> Outcome {
    let pts = o.score as int / MILLIS as int;
    let best = if ending(o) && pts > o.best_score {
        pts
    } else {
        o.best_score as int
    };
    let fin = ramp_step(if ending(o) { Some(0i64) } else { o.finished }, dt, t.finish_time as int);
    let st1 = ramp_step(o.started, dt, t.start_time as int);
    let sh1 = shake_after(o.shake_left as int, dt);
    let bo1 = bounce_after(o.bounce, dt, t.bounce_time as int);
    let ev1 = if ending(o) {
        seq![Event::Finished(best as i64, pts > o.best_score)]
    } else {
        seq![]
    };
    match o.player {
        None => Outcome {
            player: None,
            camera: drift(
                o.camera,
                dt,
                t.camera_acceleration as int,
                (t.motion.tube_radius - o.camera.radius) as int,
            ),
            started: st1,
            finished: fin,
            bounce: bo1,
            shake_left: sh1,
            money: o.money as int,
            score: o.score as int,
            best_score: best,
            death_location: o.death_location,
            coins: o.content.coins@,
            events: ev1,
        },
        Some(b) => {
            let coins0 = o.content.coins@;
            let ci = first_coin(coins0, b.pos, (b.radius + t.coin_radius) as int, 0);
            let score1 = match ci {
                Some(_) => capped(o.score + t.coin_score),
                None => o.score as int,
            };
            let m = move_outcome(
                st1,
                score1,
                bo1,
                sh1,
                o.death_location,
                o.content.obstacles@,
                b,
                c,
                t,
                masks,
                ring,
                dt,
            );
            Outcome {
                player: m.player,
                camera: m.camera,
                started: m.started,
                finished: fin,
                bounce: m.bounce,
                shake_left: m.shake_left,
                money: match ci {
                    Some(_) => o.money + 1,
                    None => o.money as int,
                },
                score: m.score,
                best_score: best,
                death_location: m.death_location,
                coins: match ci {
                    Some(i) => coins0.remove(i),
                    None => coins0,
                },
                events: ev1 + (match ci {
                    Some(i) => seq![Event::Coin(coins0[i])],
                    None => seq![],
                }) + m.events,
            }
        },
    }
}

/// Room for one more tick: depths away from their bounds, ramps short of
/// theirs, and money short of the largest count.
pub open spec fn headroom(s: GameState) -> bool {
    &&& (s.player matches Some(b) ==> -(DEPTH_LIMIT / 2) + 4 * PHYS_LIMIT <= b.pos.z <= DEPTH_LIMIT / 2
        - 4 * PHYS_LIMIT)
    &&& -(DEPTH_LIMIT / 2) + 4 * PHYS_LIMIT <= s.camera.pos.z <= DEPTH_LIMIT / 2 - 4 * PHYS_LIMIT
    &&& (s.started matches Some(v) ==> v <= RAMP_LIMIT / 2 - 0x10_0000)
    &&& (s.finished matches Some(v) ==> v <= RAMP_LIMIT / 2 - 0x10_0000)
    &&& s.money < u64::MAX - 1
}

/// Coins within bounds.
pub open spec fn coins_ok(c: Seq<Vec3>) -> bool {
    forall|k: int| 0 <= k < c.len() ==> crate::scheduler::coin_ok(#[trigger] c[k])
}

proof fn lemma_content_rebuilt(old: ContentView, mid: ContentView)
    requires
        content_ok(old),
        mid.walls == old.walls,
        mid.obstacles == old.obstacles,
        coins_ok(mid.coins),
    ensures
        content_ok(mid),
{
}

impl GameState {
    /// A fresh run: the player at rest at depth `0`, the camera at the origin,
    /// nothing generated yet.
    pub fn new(money: u64, best_score: i64, radius: i64) -> (r: GameState)
        ensures
            r.player == Some(Body { pos: Vec3 { x: 0, y: 0, z: 0 }, vel: Vec3 { x: 0, y: 0, z: 0 }, radius }),
            r.camera.pos == (Vec3 { x: 0, y: 0, z: 0 }),
            r.camera.vel == (Vec3 { x: 0, y: 0, z: 0 }),
            r.content@.walls.len() == 0,
            r.content@.obstacles.len() == 0,
            r.content@.coins.len() == 0,
            r.started is None,
            r.finished is None,
            r.bounce is None,
            r.shake_left == 0,
            r.money == money,
            r.score == 0,
            r.best_score == best_score,
            r.death_location is None,
    {
        GameState {
            player: Some(Body { pos: Vec3 { x: 0, y: 0, z: 0 }, vel: Vec3 { x: 0, y: 0, z: 0 }, radius }),
            camera: Body { pos: Vec3 { x: 0, y: 0, z: 0 }, vel: Vec3 { x: 0, y: 0, z: 0 }, radius },
            content: Content::new(),
            started: None,
            finished: None,
            bounce: None,
            shake_left: 0,
            money,
            score: 0,
            best_score,
            death_location: None,
        }
    }

    /// Advances the ramps and timers; ends the run once the player is gone.
    fn tick_timers(&mut self, dt: i64, t: &Config, events: &mut Vec<Event>)
        requires
            game_ok(*old(self), *t),
            headroom(*old(self)),
            run_config_ok(*t),
            0 <= dt <= STEP_LIMIT,
        ensures
            final(self).player == old(self).player,
            final(self).camera == old(self).camera,
            final(self).content == old(self).content,
            final(self).money == old(self).money,
            final(self).score == old(self).score,
            final(self).death_location == old(self).death_location,
            ({
                let e = expected(*old(self), Controls { target: Vec2 { x: 0, y: 0 }, touching: false }, *t, Seq::empty(), Seq::empty(), dt as int);
                &&& final(self).finished == e.finished
                &&& final(self).best_score == e.best_score
                &&& final(self).started == ramp_step(old(self).started, dt as int, t.start_time as int)
                &&& final(self).shake_left == shake_after(old(self).shake_left as int, dt as int)
                &&& final(self).bounce == bounce_after(old(self).bounce, dt as int, t.bounce_time as int)
                &&& final(events)@ == old(events)@ + (if ending(*old(self)) {
                    seq![Event::Finished(e.best_score as i64, old(self).score as int / MILLIS as int > old(self).best_score)]
                } else {
                    seq![]
                })
            }),
            final(self).started matches Some(v) ==> 0 <= v <= RAMP_LIMIT / 2,
            final(self).finished matches Some(v) ==> 0 <= v <= RAMP_LIMIT / 2,
            0 <= final(self).best_score <= SCORE_LIMIT,
            final(self).bounce matches Some(v) ==> 0 <= v < MILLIS,
            0 <= final(self).shake_left <= DURATION_LIMIT,
    {
        proof {
            assert(0 <= dt * 1000 / (t.start_time as int) <= 500 * 1000) by (nonlinear_arith)
                requires
                    0 <= dt <= 500,
                    1 <= t.start_time,
            ;
            assert(0 <= dt * 1000 / (t.finish_time as int) <= 500 * 1000) by (nonlinear_arith)
                requires
                    0 <= dt <= 500,
                    1 <= t.finish_time,
            ;
        }
        let end = self.finished.is_none() && self.player.is_none();
        self.started = advance_ramp(self.started, dt, t.start_time);
        if end {
            self.finished = Some(0);
            let (best, new_best) = record_score(self.score / MILLIS, self.best_score);
            self.best_score = best;
            events.push(Event::Finished(best, new_best));
        }
        self.finished = advance_ramp(self.finished, dt, t.finish_time);
        self.shake_left = if self.shake_left > dt {
            self.shake_left - dt
        } else {
            0
        };
        if let Some(b) = self.bounce {
            proof {
                assert(0 <= dt * 1000 / (t.bounce_time as int) <= 500 * 1000) by (nonlinear_arith)
                    requires
                        0 <= dt <= 500,
                        1 <= t.bounce_time,
                ;
            }
            let nb = b + dt * MILLIS / t.bounce_time;
            self.bounce = if nb >= MILLIS {
                None
            } else {
                Some(nb)
            };
        }
    }

    /// Picks up the first coin within reach of the player's body `body`.
    fn pick_up_coin(&mut self, body: Body, t: &Config, events: &mut Vec<Event>)
        requires
            coins_ok(old(self).content.coins@),
            body_ok(body),
            2 * body.radius <= PHYS_LIMIT,
            -(DEPTH_LIMIT / 2) <= body.pos.z <= DEPTH_LIMIT / 2,
            run_config_ok(*t),
            old(self).money < u64::MAX - 1,
            0 <= old(self).score <= SCORE_LIMIT,
        ensures
            coins_ok(final(self).content.coins@),
            final(self).content.walls@ == old(self).content.walls@,
            final(self).content.obstacles@ == old(self).content.obstacles@,
            ({
                let coins0 = old(self).content.coins@;
                let ci = first_coin(coins0, body.pos, (body.radius + t.coin_radius) as int, 0);
                &&& final(self).content.coins@ == (match ci {
                    Some(i) => coins0.remove(i),
                    None => coins0,
                })
                &&& final(self).money as int == (match ci {
                    Some(_) => old(self).money + 1,
                    None => old(self).money as int,
                })
                &&& final(self).score as int == (match ci {
                    Some(_) => capped(old(self).score + t.coin_score),
                    None => old(self).score as int,
                })
                &&& final(events)@ == old(events)@ + (match ci {
                    Some(i) => seq![Event::Coin(coins0[i])],
                    None => seq![],
                })
            }),
            0 <= final(self).score <= SCORE_LIMIT,
            final(self).money < u64::MAX,
            final(self).player == old(self).player,
            final(self).camera == old(self).camera,
            final(self).started == old(self).started,
            final(self).finished == old(self).finished,
            final(self).bounce == old(self).bounce,
            final(self).shake_left == old(self).shake_left,
            final(self).best_score == old(self).best_score,
            final(self).death_location == old(self).death_location,
    {
        let reach = body.radius + t.coin_radius;
        assert(forall|k: int|
            0 <= k < self.content.coins@.len() ==> vec3_ok(#[trigger] self.content.coins@[k])) by {
            assert forall|k: int| 0 <= k < self.content.coins@.len() implies vec3_ok(
                #[trigger] self.content.coins@[k],
            ) by {
                assert(crate::scheduler::coin_ok(self.content.coins@[k]));
            }
        }
        let found = find_coin(&self.content.coins, body.pos, reach);
        match found {
            Some(i) => {
                let ghost before = self.content.coins@;
                let coin = self.content.coins.remove(i);
                proof {
                    assert forall|k: int| 0 <= k < self.content.coins@.len() implies crate::scheduler::coin_ok(
                        #[trigger] self.content.coins@[k],
                    ) by {
                        if k < i {
                            assert(self.content.coins@[k] == before[k]);
                            assert(crate::scheduler::coin_ok(before[k]));
                        } else {
                            assert(self.content.coins@[k] == before[k + 1]);
                            assert(crate::scheduler::coin_ok(before[k + 1]));
                        }
                    }
                }
                self.money = self.money + 1;
                self.score = if self.score > SCORE_LIMIT - t.coin_score {
                    SCORE_LIMIT
                } else {
                    self.score + t.coin_score
                };
                events.push(Event::Coin(coin));
            },
            None => {},
        }
    }

    /// Moves the living player with body `body` for `dt` milliseconds.
    #[verifier::rlimit(80)]
    fn move_player(
        &mut self,
        body: Body,
        dt: i64,
        controls: Controls,
        t: &Config,
        masks: &Vec<AlphaMask>,
        ring: &Vec<Vec2>,
        events: &mut Vec<Event>,
    )
        requires
            body_ok(body),
            body.radius < t.motion.tube_radius,
            2 * body.radius <= PHYS_LIMIT,
            -(DEPTH_LIMIT / 2) + 4 * PHYS_LIMIT <= body.pos.z <= DEPTH_LIMIT / 2 - 4 * PHYS_LIMIT,
            run_config_ok(*t),
            0 <= dt <= STEP_LIMIT,
            scene_ok(old(self).content.obstacles@, masks@),
            ring_ok(ring@),
            -PHYS_LIMIT <= controls.target.x <= PHYS_LIMIT,
            -PHYS_LIMIT <= controls.target.y <= PHYS_LIMIT,
            0 <= old(self).score <= SCORE_LIMIT,
            old(self).started matches Some(v) ==> 0 <= v <= RAMP_LIMIT / 2,
            old(self).bounce matches Some(v) ==> 0 <= v < MILLIS,
            0 <= old(self).shake_left <= DURATION_LIMIT,
        ensures
            final(self).content == old(self).content,
            final(self).money == old(self).money,
            final(self).finished == old(self).finished,
            final(self).best_score == old(self).best_score,
            ({
                let m = move_outcome(
                    old(self).started,
                    old(self).score as int,
                    old(self).bounce,
                    old(self).shake_left as int,
                    old(self).death_location,
                    old(self).content.obstacles@,
                    body,
                    controls,
                    *t,
                    masks@,
                    ring@,
                    dt as int,
                );
                &&& final(self).player == m.player
                &&& final(self).camera == m.camera
                &&& final(self).started == m.started
                &&& final(self).bounce == m.bounce
                &&& final(self).shake_left as int == m.shake_left
                &&& final(self).score as int == m.score
                &&& final(self).death_location == m.death_location
                &&& final(events)@ == old(events)@ + m.events
            }),
            final(self).player matches Some(p) ==> body_ok(p) && p.radius == body.radius
                && -(DEPTH_LIMIT / 2) <= p.pos.z <= DEPTH_LIMIT / 2,
            body_ok(final(self).camera),
            final(self).camera.radius == body.radius,
            -(DEPTH_LIMIT / 2) <= final(self).camera.pos.z <= DEPTH_LIMIT / 2,
            0 <= final(self).score <= SCORE_LIMIT,
            final(self).started matches Some(v) ==> 0 <= v <= RAMP_LIMIT / 2,
            final(self).bounce matches Some(v) ==> 0 <= v < MILLIS,
            0 <= final(self).shake_left <= DURATION_LIMIT,
    {
        let ghost ev0 = events@;
        let starting = should_start(self.started, controls.target, controls.touching);
        if starting {
            self.started = Some(0);
            events.push(Event::Started);
        }
        let ghost ev_a = events@;
        let ramp = match self.started {
            Some(v) => if v > MILLIS {
                MILLIS
            } else {
                v
            },
            None => 0,
        };
        let (hit, bounced) = respond_body(body, controls.target, ramp, self.started.is_some(), &t.motion, dt);
        let moved = integrate(hit, dt);
        proof {
            lemma_travelled_bounds(hit, dt as int, (t.motion.tube_radius - body.radius) as int);
        }
        if bounced {
            events.push(Event::Bounced(moved.pos));
        }
        let ghost ev_b = events@;
        let fall: i128 = if moved.vel.z < 0 {
            -(moved.vel.z as i128)
        } else {
            moved.vel.z as i128
        };
        proof {
            crate::arith::lemma_mul_abs_bound(fall as int, dt as int, PHYS_LIMIT as int, 500);
            crate::arith::lemma_mul_abs_bound(fall * dt, t.distance_score as int, PHYS_LIMIT * 500, PHYS_LIMIT as int);
            assert(0 <= fall * dt) by (nonlinear_arith)
                requires
                    0 <= fall,
                    0 <= dt,
            ;
            assert(0 <= fall * dt * t.distance_score) by (nonlinear_arith)
                requires
                    0 <= fall * dt,
                    0 <= t.distance_score,
            ;
        }
        let gained: i128 = fall * dt as i128 * t.distance_score as i128 / MILLIS as i128;
        self.score = if (self.score as i128) + gained > SCORE_LIMIT as i128 {
            SCORE_LIMIT
        } else {
            (self.score as i128 + gained) as i64
        };
        let passed = count_passed(&self.content.obstacles, hit.pos.z, moved.pos.z);
        if passed > 0 {
            events.push(Event::Passed(passed));
        }
        let ghost ev_c = events@;
        self.camera = Body {
            pos: camera_follow(moved.pos, t.horizontal_movement, t.camera_distance),
            vel: moved.vel,
            radius: body.radius,
        };
        let died = player_dies(&self.content.obstacles, masks, hit.pos, moved.pos, t.death_distance);
        let mut contact = false;
        if died {
            self.player = None;
            self.death_location = Some(moved.pos);
            events.push(Event::Died(moved.pos));
        } else {
            let mut next = moved;
            let hit_ring = first_contact(&self.content.obstacles, masks, hit.pos, moved.pos, ring);
            match hit_ring {
                Some(k) => {
                    let off = ring[k];
                    proof {
                        assert(-PHYS_LIMIT <= ring@[k as int].x <= PHYS_LIMIT);
                    }
                    next.vel = bounce_off(moved.vel, Vec2 { x: -off.x, y: -off.y }, t.motion.bounce_speed);
                    contact = true;
                    events.push(Event::Bounced(moved.pos));
                },
                None => {},
            }
            self.player = Some(next);
        }
        if bounced || contact {
            self.bounce = Some(0);
        }
        if bounced || died || contact {
            self.shake_left = t.shake_time;
        }
        proof {
            assert(ev_a == ev0 + (if starting { seq![Event::Started] } else { seq![] }));
            assert(events@ == ev0 + move_outcome(
                old(self).started,
                old(self).score as int,
                old(self).bounce,
                old(self).shake_left as int,
                old(self).death_location,
                old(self).content.obstacles@,
                body,
                controls,
                *t,
                masks@,
                ring@,
                dt as int,
            ).events);
        }
    }

    /// Runs one tick of `dt` milliseconds, as `expected` describes, then
    /// generates and drops content around the camera's new depth.
    pub fn update(
        &mut self,
        dt: i64,
        controls: Controls,
        t: &Config,
        masks: &Vec<AlphaMask>,
        ring: &Vec<Vec2>,
        cfg: &ContentConfig,
        rng: &mut Rng,
    ) -> (events: Vec<Event>)
        requires
            game_ok(*old(self), *t),
            headroom(*old(self)),
            run_config_ok(*t),
            0 <= dt <= STEP_LIMIT,
            scene_ok(old(self).content.obstacles@, masks@),
            ring_ok(ring@),
            config_ok(*cfg),
            state_ok(old(rng).state),
            -PHYS_LIMIT <= controls.target.x <= PHYS_LIMIT,
            -PHYS_LIMIT <= controls.target.y <= PHYS_LIMIT,
        ensures
            ({
                let e = expected(*old(self), controls, *t, masks@, ring@, dt as int);
                &&& final(self).player == e.player
                &&& final(self).camera == e.camera
                &&& final(self).started == e.started
                &&& final(self).finished == e.finished
                &&& final(self).bounce == e.bounce
                &&& final(self).shake_left as int == e.shake_left
                &&& final(self).money as int == e.money
                &&& final(self).score as int == e.score
                &&& final(self).best_score as int == e.best_score
                &&& final(self).death_location == e.death_location
                &&& events@ == e.events
                &&& refreshed(
                    ContentView {
                        walls: old(self).content@.walls,
                        obstacles: old(self).content@.obstacles,
                        coins: e.coins,
                    },
                    final(self).content@,
                    final(self).camera.pos.z as int,
                    *cfg,
                )
            }),
            game_ok(*final(self), *t),
            state_ok(final(rng).state),
    {
        let mut events: Vec<Event> = Vec::new();
        let ghost o = *old(self);
        self.tick_timers(dt, t, &mut events);
        match self.player {
            Some(body) => {
                proof {
                    assert(coins_ok(self.content.coins@)) by {
                        assert(content_ok(self.content@));
                        assert forall|k: int| 0 <= k < self.content.coins@.len() implies crate::scheduler::coin_ok(
                            #[trigger] self.content.coins@[k],
                        ) by {
                            assert(crate::scheduler::coin_ok(self.content@.coins[k]));
                        }
                    }
                }
                self.pick_up_coin(body, t, &mut events);
                self.move_player(body, dt, controls, t, masks, ring, &mut events);
            },
            None => {
                self.camera = camera_drift(
                    self.camera,
                    dt,
                    t.camera_acceleration,
                    t.motion.tube_radius - self.camera.radius,
                );
                proof {
                    assert(coins_ok(self.content.coins@)) by {
                        assert forall|k: int| 0 <= k < self.content.coins@.len() implies crate::scheduler::coin_ok(
                            #[trigger] self.content.coins@[k],
                        ) by {
                            assert(crate::scheduler::coin_ok(self.content@.coins[k]));
                        }
                    }
                }
            },
        }
        let ghost mid = self.content@;
        proof {
            lemma_content_rebuilt(o.content@, mid);
        }
        self.content.refresh(self.camera.pos.z, cfg, rng);
        events
    }

    /// Whether a key press or touch now restarts the run.
    pub fn can_restart(&self) -> (r: bool)
        ensures
            r == (self.finished matches Some(t) && t > MILLIS),
    {
        restart_allowed(self.finished)
    }
}

/// A player at rest on the axis, in a run that has not started and where
/// gravity waits for the start, stays where it is through a tick with no
/// input when no obstacle is near.
pub proof fn lemma_rest_stays_put(
    o: GameState,
    c: Controls,
    t: Config,
    masks: Seq<AlphaMask>,
    ring: Seq<Vec2>,
    dt: int,
)
    requires
        run_config_ok(t),
        o.player matches Some(b) && b.pos == (Vec3 { x: 0, y: 0, z: 0 }) && b.vel == (Vec3 {
            x: 0,
            y: 0,
            z: 0,
        }) && 0 < b.radius < t.motion.tube_radius,
        o.started is None,
        t.motion.gravity_after_start,
        c.target == (Vec2 { x: 0, y: 0 }),
        !c.touching,
        0 <= dt <= STEP_LIMIT,
        !dies(o.content.obstacles@, masks, Vec3 { x: 0, y: 0, z: 0 }, Vec3 { x: 0, y: 0, z: 0 }, t.death_distance as int),
        ring_contact(o.content.obstacles@, masks, Vec3 { x: 0, y: 0, z: 0 }, Vec3 { x: 0, y: 0, z: 0 }, ring, 0) is None,
    ensures
        expected(o, c, t, masks, ring, dt).player == o.player,
        expected(o, c, t, masks, ring, dt).started is None,
{
    let b = o.player.unwrap();
    let cap = t.motion.acceleration * dt / MILLIS as int;
    assert(cap >= 0) by (nonlinear_arith)
        requires
            t.motion.acceleration >= 0,
            dt >= 0,
            cap == t.motion.acceleration * dt / 1000,
    ;
    assert(0 * 0 + 0 * 0 <= cap * cap) by (nonlinear_arith);
    assert(crate::physics::scale_toward_zero(0, 0, MILLIS as int) == 0);
    assert(crate::physics::travel(0, dt) == 0);
    let (hit, bounced) = respond(b, c.target, 0, false, t.motion, dt);
    assert(hit == b);
}

/// In a tick of no time, a living player keeps its depth, and the camera
/// stands `camera_distance` above it: a second refresh sees the camera where
/// the first left it.
pub proof fn lemma_zero_tick_keeps_depth(
    o: GameState,
    c: Controls,
    t: Config,
    masks: Seq<AlphaMask>,
    ring: Seq<Vec2>,
)
    requires
        run_config_ok(t),
        o.player matches Some(b) && body_ok(b) && b.radius < t.motion.tube_radius,
    ensures
        ({
            let b = o.player.unwrap();
            let e = expected(o, c, t, masks, ring, 0);
            &&& e.camera.pos.z == b.pos.z + t.camera_distance
            &&& e.player matches Some(p) ==> p.pos.z == b.pos.z
        }),
{
    let b = o.player.unwrap();
    let st1 = ramp_step(o.started, 0, t.start_time as int);
    let st = if starts_now(st1, c.target, c.touching) { Some(0i64) } else { st1 };
    let (hit, bounced) = respond(b, c.target, ramp_of(st), st is Some, t.motion, 0);
    assert(crate::physics::travel(hit.vel.z as int, 0) == 0);
    assert(crate::physics::travel(hit.vel.x as int, 0) == 0);
    assert(crate::physics::travel(hit.vel.y as int, 0) == 0);
}

/// Through a tick, a player penetrating the tube wall is pulled back inside
/// before it moves: its centre lies within `tube_radius - radius` of the axis
/// and, up to rounding, no nearer than that times `(cs - 1) / cs`; if it
/// bounced off the wall, it leaves it at `bounce_speed` or more (unless a
/// velocity component saturated). The surviving player is that body moved by
/// its velocity.
pub proof fn lemma_tick_pushes_back(
    o: GameState,
    c: Controls,
    t: Config,
    masks: Seq<AlphaMask>,
    ring: Seq<Vec2>,
    dt: int,
    cs: int,
)
    requires
        run_config_ok(t),
        o.player matches Some(b) && body_ok(b) && b.radius < t.motion.tube_radius && penetrates(
            b.pos,
            b.radius as int,
            t.motion.tube_radius as int,
        ) && is_ceil_sqrt(len2_xy(b.pos.x as int, b.pos.y as int), cs),
    ensures
        ({
            let b = o.player.unwrap();
            let e = expected(o, c, t, masks, ring, dt);
            let (hit, bounced) = respond(b, c.target, ramp_of(e.started), e.started is Some, t.motion, dt);
            let d = t.motion.tube_radius - b.radius;
            let x = b.pos.x as int;
            let y = b.pos.y as int;
            &&& len2_xy(hit.pos.x as int, hit.pos.y as int) <= d * d
            &&& cs * cs * len2_xy(abs(hit.pos.x as int) + 1, abs(hit.pos.y as int) + 1) > (cs - 1) * (cs
                - 1) * (d * d)
            &&& hit.pos.z == b.pos.z
            &&& (bounced && -PHYS_LIMIT < hit.vel.x < PHYS_LIMIT && -PHYS_LIMIT < hit.vel.y < PHYS_LIMIT)
                ==> -(x * hit.vel.x + y * hit.vel.y) >= t.motion.bounce_speed * cs
            &&& e.player matches Some(p) ==> p.pos == travelled(hit, dt).pos
        }),
{
    let b = o.player.unwrap();
    let e = expected(o, c, t, masks, ring, dt);
    let target = c.target;
    let ramp = ramp_of(e.started);
    let m = t.motion;
    let goal = Vec2 {
        x: crate::physics::scale_toward_zero(target.x as int, ramp, MILLIS as int) as i64,
        y: crate::physics::scale_toward_zero(target.y as int, ramp, MILLIS as int) as i64,
    };
    let cap = m.acceleration * dt / MILLIS as int;
    let dv = crate::physics::clamped(Vec2 { x: (goal.x - b.vel.x) as i64, y: (goal.y - b.vel.y) as i64 }, cap);
    let vel = Vec3 {
        x: crate::physics::saturate(b.vel.x + dv.x) as i64,
        y: crate::physics::saturate(b.vel.y + dv.y) as i64,
        z: crate::physics::saturate(b.vel.z + crate::physics::gravity_dv(b.vel.z as int, e.started is Some, m, dt)) as i64,
    };
    let steered = Body { pos: b.pos, vel, radius: b.radius };
    assert(body_ok(steered));
    crate::physics::lemma_ceil_sqrt_unique(len2_xy(b.pos.x as int, b.pos.y as int), cs);
    crate::physics::lemma_tube_push_back(steered, m, cs);
}

/// Through a tick, samples of the player's centre on both sides of an
/// obstacle's plane (or too near it), taken after the wall's response and
/// after the move, end the player: the run records where it died and shakes.
pub proof fn lemma_fatal_tick(
    o: GameState,
    c: Controls,
    t: Config,
    masks: Seq<AlphaMask>,
    ring: Seq<Vec2>,
    dt: int,
)
    requires
        o.player is Some,
        ({
            let b = o.player.unwrap();
            let e = expected(o, c, t, masks, ring, dt);
            let (hit, _) = respond(b, c.target, ramp_of(e.started), e.started is Some, t.motion, dt);
            dies(o.content.obstacles@, masks, hit.pos, travelled(hit, dt).pos, t.death_distance as int)
        }),
    ensures
        ({
            let b = o.player.unwrap();
            let e = expected(o, c, t, masks, ring, dt);
            let (hit, _) = respond(b, c.target, ramp_of(e.started), e.started is Some, t.motion, dt);
            &&& e.player is None
            &&& e.death_location == Some(travelled(hit, dt).pos)
            &&& e.shake_left == t.shake_time
        }),
{
}

/// Through a tick, the first coin within `radius + coin_radius` of a living
/// player is collected: it leaves the list (the others stay in order), money
/// grows by one and the score by the coin's worth, before the fall's share.
pub proof fn lemma_coin_tick(
    o: GameState,
    c: Controls,
    t: Config,
    masks: Seq<AlphaMask>,
    ring: Seq<Vec2>,
    dt: int,
    i: int,
)
    requires
        o.player matches Some(b) && first_coin(
            o.content.coins@,
            b.pos,
            (b.radius + t.coin_radius) as int,
            0,
        ) == Some(i),
    ensures
        expected(o, c, t, masks, ring, dt).coins == o.content.coins@.remove(i),
        expected(o, c, t, masks, ring, dt).money == o.money + 1,
        expected(o, c, t, masks, ring, dt).events.contains(Event::Coin(o.content.coins@[i])),
{
    let e = expected(o, c, t, masks, ring, dt);
    let ev1 = if ending(o) {
        seq![Event::Finished(e.best_score as i64, o.score as int / MILLIS as int > o.best_score)]
    } else {
        seq![]
    };
    assert(ev1.len() == 0);
    assert(e.events[0] == Event::Coin(o.content.coins@[i]));
}

/// A tick of no time after a tick that refreshed the content adds and drops
/// nothing, when the player lives, the camera stands `camera_distance` above
/// it (as a tick leaves it), no coin is in reach, and the furthest obstacle
/// before the first refresh lay below the camera.
pub proof fn lemma_zero_tick_idempotent(
    mid1: ContentView,
    s1: GameState,
    c: Controls,
    t: Config,
    masks: Seq<AlphaMask>,
    ring: Seq<Vec2>,
    cfg: ContentConfig,
    content2: ContentView,
)
    requires
        run_config_ok(t),
        config_ok(cfg),
        refreshed(mid1, s1.content@, s1.camera.pos.z as int, cfg),
        obstacle_frontier(mid1.obstacles) < s1.camera.pos.z,
        s1.player matches Some(b) && body_ok(b) && b.radius < t.motion.tube_radius && s1.camera.pos.z
            == b.pos.z + t.camera_distance && first_coin(
            s1.content.coins@,
            b.pos,
            (b.radius + t.coin_radius) as int,
            0,
        ) is None,
        refreshed(
            ContentView {
                walls: s1.content@.walls,
                obstacles: s1.content@.obstacles,
                coins: expected(s1, c, t, masks, ring, 0).coins,
            },
            content2,
            expected(s1, c, t, masks, ring, 0).camera.pos.z as int,
            cfg,
        ),
    ensures
        content2 == s1.content@,
{
    lemma_zero_tick_keeps_depth(s1, c, t, masks, ring);
    let mid2 = ContentView {
        walls: s1.content@.walls,
        obstacles: s1.content@.obstacles,
        coins: expected(s1, c, t, masks, ring, 0).coins,
    };
    assert(mid2 == s1.content@);
    lemma_refresh_idempotent(mid1, s1.content@, content2, s1.camera.pos.z as int, cfg);
}

} // verus!
