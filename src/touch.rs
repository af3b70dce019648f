//! Steering input: held direction keys, which count once a key has been
//! pressed, and a drag whose accumulated displacement on the tube's cross-
//! section plane sets the target velocity. The displacement decays as the
//! player moves: by a set fraction (typically half) of the distance moved each
//! tick, and never beyond an
//! outer radius.
//!
//! Points are given on the tube's cross-section plane at the camera's viewing
//! distance, in world units.
use vstd::prelude::*;
use crate::geom::{Vec2, len2_xy};
use crate::physics::{ceil_sqrt, ceil_sqrt_of, clamp_len, clamped, key_target, scale_toward_zero, PHYS_LIMIT};

verus! {

/// A drag in progress: the displacement still to act and the last point.
#[derive(Clone, Copy, Debug, PartialEq, Eq, Structural)]
pub struct TouchControl {
    pub move_delta: Vec2,
    pub prev_pos: Vec2,
}

/// Which direction keys are held.
#[derive(Clone, Copy, Debug, PartialEq, Eq, Structural)]
pub struct Keys {
    pub up: bool,
    pub left: bool,
    pub down: bool,
    pub right: bool,
}

/// The steering input of a run.
#[derive(Clone, Copy, Debug, PartialEq, Eq, Structural)]
pub struct Input {
    /// A key has been pressed; until then held keys do not steer.
    pub key_input: bool,
    pub touch: Option<TouchControl>,
}

/// A point or displacement within the bounds steering works in.
pub open spec fn plane_ok(v: Vec2) -> bool {
    -PHYS_LIMIT <= v.x <= PHYS_LIMIT && -PHYS_LIMIT <= v.y <= PHYS_LIMIT
}

/// A drag displacement within the bounds steering works in.
pub open spec fn delta_ok(v: Vec2) -> bool {
    -PHYS_LIMIT / 2 <= v.x <= PHYS_LIMIT / 2 && -PHYS_LIMIT / 2 <= v.y <= PHYS_LIMIT / 2
}

/// Input whose drag lies within bounds.
pub open spec fn input_ok(i: Input) -> bool {
    i.touch matches Some(t) ==> delta_ok(t.move_delta) && plane_ok(t.prev_pos)
}

/// The target velocity of a drag: its displacement shortened to
/// `small_radius`, then scaled so that `small_radius` maps to `max_speed`.
pub open spec fn drag_target(delta: Vec2, small_radius: int, max_speed: int) -> Vec2 {
    let c = clamped(delta, small_radius);
    Vec2 {
        x: scale_toward_zero(c.x as int, max_speed, small_radius) as i64,
        y: scale_toward_zero(c.y as int, max_speed, small_radius) as i64,
    }
}

/// The displacement after the player moved by `performed`: shortened by the
/// fraction `decay` (in thousandths) of the distance moved (to nothing when it
/// was shorter), then to `big_radius`. Lengths are rounded up.
pub open spec fn decayed(delta: Vec2, performed: Vec2, decay: int, big_radius: int) -> Vec2 {
    let len = ceil_sqrt_of(len2_xy(delta.x as int, delta.y as int));
    let half = ceil_sqrt_of(len2_xy(performed.x as int, performed.y as int)) * decay / 1000;
    let keep = if len > half { len - half } else { 0 };
    if len == 0 {
        Vec2 { x: 0, y: 0 }
    } else {
        clamped(clamped(delta, keep), big_radius)
    }
}

impl Input {
    /// No key pressed yet and no drag.
    pub fn new() -> (r: Input)
        ensures
            r == (Input { key_input: false, touch: None }),
    {
        Input { key_input: false, touch: None }
    }

    /// A key was pressed: held keys steer from now on.
    pub fn key_press(&mut self)
        ensures
            *final(self) == (Input { key_input: true, ..*old(self) }),
    {
        self.key_input = true;
    }

    /// A drag starts at `pos`, with no displacement yet.
    pub fn touch_start(&mut self, pos: Vec2)
        ensures
            *final(self) == (Input {
                touch: Some(TouchControl { move_delta: Vec2 { x: 0, y: 0 }, prev_pos: pos }),
                ..*old(self)
            }),
    {
        self.touch = Some(TouchControl { move_delta: Vec2 { x: 0, y: 0 }, prev_pos: pos });
    }

    /// The drag moves to `pos`: its displacement grows by the step from the last point.
    pub fn touch_move(&mut self, pos: Vec2)
        requires
            input_ok(*old(self)),
            plane_ok(pos),
            old(self).touch matches Some(t) ==> delta_ok(
                Vec2 {
                    x: (t.move_delta.x + pos.x - t.prev_pos.x) as i64,
                    y: (t.move_delta.y + pos.y - t.prev_pos.y) as i64,
                },
            ),
        ensures
            *final(self) == (match old(self).touch {
                Some(t) => Input {
                    touch: Some(
                        TouchControl {
                            move_delta: Vec2 {
                                x: (t.move_delta.x + pos.x - t.prev_pos.x) as i64,
                                y: (t.move_delta.y + pos.y - t.prev_pos.y) as i64,
                            },
                            prev_pos: pos,
                        },
                    ),
                    ..*old(self)
                },
                None => *old(self),
            }),
            input_ok(*final(self)),
    {
        match self.touch {
            Some(t) => {
                let delta = Vec2 {
                    x: t.move_delta.x + pos.x - t.prev_pos.x,
                    y: t.move_delta.y + pos.y - t.prev_pos.y,
                };
                self.touch = Some(TouchControl { move_delta: delta, prev_pos: pos });
            },
            None => {},
        }
    }

    /// The drag ends.
    pub fn touch_end(&mut self)
        ensures
            *final(self) == (Input { touch: None, ..*old(self) }),
    {
        self.touch = None;
    }

    /// The target velocity and whether a drag is in progress: a drag steers
    /// by its displacement; otherwise held keys steer once a key was pressed.
    pub fn target(&self, keys: Keys, max_speed: i64, small_radius: i64, touch_speed: i64) -> (r: (Vec2, bool))
        requires
            input_ok(*self),
            0 <= max_speed <= PHYS_LIMIT,
            1 <= small_radius <= PHYS_LIMIT,
            0 <= touch_speed <= PHYS_LIMIT,
        ensures
            r.1 == self.touch is Some,
            plane_ok(r.0),
            self.touch matches Some(t) ==> r.0 == drag_target(t.move_delta, small_radius as int, touch_speed as int),
            self.touch is None && self.key_input ==> r.0 == key_target_of(keys, max_speed as int),
            self.touch is None && !self.key_input ==> r.0 == (Vec2 { x: 0, y: 0 }),
    {
        match self.touch {
            Some(t) => {
                let c = clamp_len(t.move_delta, small_radius);
                proof {
                    assert(-small_radius <= c.x <= small_radius && -small_radius <= c.y <= small_radius)
                        by (nonlinear_arith)
                        requires
                            c.x * c.x + c.y * c.y <= small_radius * small_radius,
                            small_radius >= 1,
                    ;
                    lemma_to_speed(crate::arith::abs(c.x as int), touch_speed as int, small_radius as int);
                    lemma_to_speed(crate::arith::abs(c.y as int), touch_speed as int, small_radius as int);
                }
                let x = if c.x < 0 {
                    -((-c.x) * touch_speed / small_radius)
                } else {
                    c.x * touch_speed / small_radius
                };
                let y = if c.y < 0 {
                    -((-c.y) * touch_speed / small_radius)
                } else {
                    c.y * touch_speed / small_radius
                };
                (Vec2 { x, y }, true)
            },
            None => {
                if self.key_input {
                    let k = key_target(keys.up, keys.left, keys.down, keys.right, max_speed);
                    assert(-max_speed <= k.x <= max_speed && -max_speed <= k.y <= max_speed)
                        by (nonlinear_arith)
                        requires
                            k.x * k.x + k.y * k.y <= max_speed * max_speed,
                            max_speed >= 0,
                    ;
                    (k, false)
                } else {
                    (Vec2 { x: 0, y: 0 }, false)
                }
            },
        }
    }

    /// After the player moved by `performed` this tick, the drag's
    /// displacement decays by `decay` thousandths of that distance.
    pub fn settle(&mut self, performed: Vec2, decay: i64, big_radius: i64)
        requires
            input_ok(*old(self)),
            plane_ok(performed),
            0 <= decay <= 1000,
            0 <= big_radius <= PHYS_LIMIT / 2,
        ensures
            *final(self) == (match old(self).touch {
                Some(t) => Input {
                    touch: Some(TouchControl { move_delta: decayed(t.move_delta, performed, decay as int, big_radius as int), ..t }),
                    ..*old(self)
                },
                None => *old(self),
            }),
            input_ok(*final(self)),
    {
        match self.touch {
            Some(t) => {
                let d = t.move_delta;
                assert(delta_ok(d));
                proof {
                    assert(0 <= d.x * d.x <= 0x400_0000_0000_0000 && 0 <= d.y * d.y <= 0x400_0000_0000_0000)
                        by (nonlinear_arith)
                        requires
                            -0x2000_0000 <= d.x <= 0x2000_0000,
                            -0x2000_0000 <= d.y <= 0x2000_0000,
                    ;
                    crate::arith::lemma_mul_abs_bound(performed.x as int, performed.x as int, PHYS_LIMIT as int, PHYS_LIMIT as int);
                    crate::arith::lemma_mul_abs_bound(performed.y as int, performed.y as int, PHYS_LIMIT as int, PHYS_LIMIT as int);
                }
                let n2i: i128 = d.x as i128 * d.x as i128 + d.y as i128 * d.y as i128;
                let p2i: i128 = performed.x as i128 * performed.x as i128 + performed.y as i128 * performed.y as i128;
                proof {
                    assert(0 <= p2i) by (nonlinear_arith)
                        requires
                            p2i == performed.x * performed.x + performed.y * performed.y,
                    ;
                }
                let n2 = n2i as u64;
                let p2 = p2i as u64;
                assert(n2 as int == len2_xy(d.x as int, d.y as int));
                assert(n2 <= 0x800_0000_0000_0000);
                assert(p2 as int == len2_xy(performed.x as int, performed.y as int));
                let len = ceil_sqrt(n2);
                let c2 = ceil_sqrt(p2);
                proof {
                    assert(c2 * decay <= 0x1_0000_0000 * 1000) by (nonlinear_arith)
                        requires
                            c2 <= 0x1_0000_0000,
                            0 <= decay <= 1000,
                    ;
                }
                let half = c2 * decay as u64 / 1000;
                proof {
                    crate::physics::lemma_ceil_sqrt_unique(n2 as int, len as int);
                    crate::physics::lemma_ceil_sqrt_unique(p2 as int, c2 as int);
                    assert(len <= PHYS_LIMIT) by (nonlinear_arith)
                        requires
                            len == 0 || (len - 1) * (len - 1) < n2,
                            n2 <= 0x800_0000_0000_0000,
                    ;
                }
                let next = if len == 0 {
                    Vec2 { x: 0, y: 0 }
                } else {
                    let keep = if len > half { len - half } else { 0 };
                    let first = clamp_len(d, keep as i64);
                    let r = clamp_len(first, big_radius);
                    proof {
                        assert(-big_radius <= r.x <= big_radius && -big_radius <= r.y <= big_radius)
                            by (nonlinear_arith)
                            requires
                                r.x * r.x + r.y * r.y <= big_radius * big_radius,
                                big_radius >= 0,
                        ;
                    }
                    r
                };
                self.touch = Some(TouchControl { move_delta: next, ..t });
            },
            None => {},
        }
    }
}

/// The target of held keys, as `key_target` computes it.
pub open spec fn key_target_of(k: Keys, max_speed: int) -> Vec2 {
    clamped(
        Vec2 {
            x: ((if k.right { max_speed } else { 0 }) - (if k.left { max_speed } else { 0 })) as i64,
            y: ((if k.up { max_speed } else { 0 }) - (if k.down { max_speed } else { 0 })) as i64,
        },
        max_speed,
    )
}

proof fn lemma_to_speed(v: int, num: int, den: int)
    requires
        0 <= v <= den,
        0 <= num <= PHYS_LIMIT,
        1 <= den <= PHYS_LIMIT,
    ensures
        0 <= v * num / den <= num,
        v * num <= PHYS_LIMIT * PHYS_LIMIT,
{
    let t = v * num;
    vstd::arithmetic::div_mod::lemma_fundamental_div_mod(t, den);
    vstd::arithmetic::div_mod::lemma_mod_pos_bound(t, den);
    assert(0 <= t <= den * num && t <= PHYS_LIMIT * PHYS_LIMIT) by (nonlinear_arith)
        requires
            t == v * num,
            0 <= v <= den,
            0 <= num <= PHYS_LIMIT,
            den <= PHYS_LIMIT,
    ;
    assert(0 <= t / den <= num) by (nonlinear_arith)
        requires
            den * (t / den) + t % den == t,
            0 <= t % den < den,
            0 <= t <= den * num,
    ;
}

} // verus!
