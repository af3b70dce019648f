//! The on-screen score: one rolling place per decimal digit, each easing its
//! shown value toward its target.
//!
//! Shown values are in thousandths; place `i` targets the score divided by
//! `10^i`, and a renderer shows that value modulo ten.
use vstd::prelude::*;
use crate::arith::lemma_mul_abs_bound;
use crate::physics::scale_toward_zero;

verus! {

/// Largest magnitude of a shown value.
pub const SHOWN_LIMIT: i64 = 0x400_0000_0000;

/// One decimal place of a rolling number.
#[derive(Clone, Copy, Debug)]
pub struct DigitPlace {
    /// Shown value, in thousandths.
    pub current_value: i64,
}

/// A rolling number, least significant place first.
pub struct FancyNumber {
    pub target_value: i32,
    pub digits: Vec<DigitPlace>,
}

/// The target of place `i` for score `v`: `v` divided by ten `i` times.
pub open spec fn place_target(v: int, i: nat) -> int
    decreases i,
{
    if i == 0 {
        v
    } else {
        place_target(v, (i - 1) as nat) / 10
    }
}

/// Number of decimal places of a non-negative `v`; zero has one.
pub open spec fn places(v: int) -> nat
    decreases v,
{
    if v < 10 {
        1
    } else {
        1 + places(v / 10)
    }
}

/// Places still to come once the remaining target is `t`, after the first place.
pub open spec fn rest_places(t: int) -> nat {
    if t <= 0 {
        0
    } else {
        places(t)
    }
}

/// A shown value eased toward `target` by a step of `dt` thousandths (at most a whole step).
pub open spec fn eased(cur: int, target: int, dt: int) -> int {
    cur + scale_toward_zero(target * 1000 - cur, if dt < 1000 { dt } else { 1000 }, 1000)
}

/// The shown value of a place that appears for `target`: half a unit below it.
pub open spec fn fresh_value(target: int) -> int {
    target * 1000 - 500
}

/// Places with shown values within bounds.
pub open spec fn places_ok(d: Seq<DigitPlace>) -> bool {
    forall|k: int| 0 <= k < d.len() ==> -SHOWN_LIMIT <= #[trigger] d[k].current_value <= SHOWN_LIMIT
}

proof fn lemma_eased_between(cur: int, target: int, dt: int)
    requires
        -SHOWN_LIMIT <= cur <= SHOWN_LIMIT,
        -SHOWN_LIMIT <= target * 1000 <= SHOWN_LIMIT,
        0 <= dt,
    ensures
        -SHOWN_LIMIT <= eased(cur, target, dt) <= SHOWN_LIMIT,
{
    let k = if dt < 1000 { dt } else { 1000 };
    let d = target * 1000 - cur;
    let a = if d < 0 { -d } else { d };
    vstd::arithmetic::div_mod::lemma_fundamental_div_mod(a * k, 1000);
    vstd::arithmetic::div_mod::lemma_mod_pos_bound(a * k, 1000);
    assert(0 <= a * k <= a * 1000) by (nonlinear_arith)
        requires
            a >= 0,
            0 <= k <= 1000,
    ;
    assert(0 <= (a * k) / 1000 <= a) by (nonlinear_arith)
        requires
            1000 * ((a * k) / 1000) + (a * k) % 1000 == a * k,
            0 <= (a * k) % 1000 < 1000,
            0 <= a * k <= a * 1000,
    ;
}

impl DigitPlace {
    /// A place showing half a unit below zero.
    pub fn new() -> (r: DigitPlace)
        ensures
            r.current_value == -500,
    {
        DigitPlace { current_value: -500 }
    }

    /// Eases the shown value toward `target_value` by `delta_time` thousandths of a step.
    pub fn update(&mut self, target_value: i32, delta_time: i64)
        requires
            -SHOWN_LIMIT <= old(self).current_value <= SHOWN_LIMIT,
            0 <= delta_time,
        ensures
            final(self).current_value == eased(
                old(self).current_value as int,
                target_value as int,
                delta_time as int,
            ),
            -SHOWN_LIMIT <= final(self).current_value <= SHOWN_LIMIT,
    {
        let k: i64 = if delta_time < 1000 {
            delta_time
        } else {
            1000
        };
        let d: i64 = target_value as i64 * 1000 - self.current_value;
        proof {
            lemma_mul_abs_bound(d as int, k as int, 0x800_0000_0000, 1000);
            lemma_mul_abs_bound(-d as int, k as int, 0x800_0000_0000, 1000);
            lemma_eased_between(self.current_value as int, target_value as int, delta_time as int);
        }
        let step = if d < 0 {
            -((-d) * k / 1000)
        } else {
            d * k / 1000
        };
        self.current_value = self.current_value + step;
    }
}

/// The places after an update for score `v`: as many as `v` has decimal
/// places, place `i` eased toward its target from its old shown value, or from
/// half a unit below the target where it is new.
pub open spec fn rolled(old: Seq<DigitPlace>, v: int, dt: int, new: Seq<DigitPlace>) -> bool {
    &&& new.len() == places(v)
    &&& forall|i: int|
        0 <= i < new.len() ==> #[trigger] new[i].current_value == eased(
            if i < old.len() {
                old[i].current_value as int
            } else {
                fresh_value(place_target(v, i as nat))
            },
            place_target(v, i as nat),
            dt,
        )
}

proof fn lemma_rest_places(t: int)
    requires
        t >= 1,
    ensures
        rest_places(t) == 1 + rest_places(t / 10),
        t / 10 >= 0,
        t / 10 < t,
{
}

proof fn lemma_places_bound(v: int)
    requires
        v >= 0,
    ensures
        places(v) <= v + 1,
    decreases v,
{
    if v >= 10 {
        lemma_places_bound(v / 10);
    }
}

impl FancyNumber {
    /// A number rolling toward `value`, with one place showing half a unit below zero.
    pub fn new(value: i32) -> (r: FancyNumber)
        requires
            value >= 0,
        ensures
            r.target_value == value,
            r.digits@.len() == 1,
            r.digits@[0].current_value == -500,
    {
        FancyNumber { target_value: value, digits: vec![DigitPlace::new()] }
    }

    /// Sets the value the places roll toward.
    pub fn set_value(&mut self, new_value: i32)
        requires
            new_value >= 0,
        ensures
            final(self).target_value == new_value,
            final(self).digits@ == old(self).digits@,
    {
        self.target_value = new_value;
    }

    /// Number of places shown.
    pub fn width(&self) -> (r: usize)
        ensures
            r == self.digits@.len(),
    {
        self.digits.len()
    }

    /// Rolls every place by `delta_time` thousandths of a step, adding places
    /// the target needs and dropping those it no longer has.
    pub fn update(&mut self, delta_time: i64)
        requires
            old(self).target_value >= 0,
            places_ok(old(self).digits@),
            0 <= delta_time,
        ensures
            final(self).target_value == old(self).target_value,
            rolled(old(self).digits@, old(self).target_value as int, delta_time as int, final(self).digits@),
            places_ok(final(self).digits@),
    {
        let ghost old_digits = self.digits@;
        let v = self.target_value;
        let mut target: i32 = v;
        let mut i: usize = 0;
        proof {
            lemma_places_bound(v as int);
        }
        while target != 0 || i == 0
            invariant
                v == self.target_value,
                v >= 0,
                0 <= delta_time,
                target as int == place_target(v as int, i as nat),
                0 <= target <= v,
                i == 0 ==> target == v,
                i > 0 ==> i + rest_places(target as int) == places(v as int),
                places(v as int) <= v + 1,
                i <= places(v as int),
                self.digits@.len() >= i,
                self.digits@.len() == (if i < old_digits.len() { old_digits.len() as int } else { i as int }),
                places_ok(self.digits@),
                forall|k: int| i <= k < self.digits@.len() ==> #[trigger] self.digits@[k] == old_digits[k],
                forall|k: int|
                    0 <= k < i ==> #[trigger] self.digits@[k].current_value == eased(
                        if k < old_digits.len() {
                            old_digits[k].current_value as int
                        } else {
                            fresh_value(place_target(v as int, k as nat))
                        },
                        place_target(v as int, k as nat),
                        delta_time as int,
                    ),
            decreases (if i == 0 { 1 + v as int } else { target as int }),
        {
            if i >= self.digits.len() {
                self.digits.push(DigitPlace { current_value: target as i64 * 1000 - 500 });
            }
            let mut d = self.digits[i];
            d.update(target, delta_time);
            self.digits.set(i, d);
            proof {
                if target >= 1 {
                    lemma_rest_places(target as int);
                }
                if i == 0 {
                    if v < 10 {
                        assert(places(v as int) == 1);
                    } else {
                        assert(places(v as int) == 1 + places(v / 10));
                    }
                }
            }
            target = target / 10;
            i = i + 1;
        }
        self.digits.truncate(i);
        assert(i == places(v as int));
    }
}

} // verus!
