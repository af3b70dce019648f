use meowjelly::geom::{Vec2, Vec3};
use meowjelly::physics::{apply_gravity, ceil_sqrt, clamp_len, find_coin, integrate, step_body, tube_collide, Body, Motion};

fn motion() -> Motion {
    Motion {
        tube_radius: 5000,
        fall_speed: 3000,
        fall_acceleration: 200,
        fall_slow_acceleration: 50,
        acceleration: 1000,
        bounce_speed: 700,
        gravity_after_start: true,
    }
}

#[test]
fn ceil_sqrt_values() {
    assert_eq!(ceil_sqrt(0), 0);
    assert_eq!(ceil_sqrt(1), 1);
    assert_eq!(ceil_sqrt(2), 2);
    assert_eq!(ceil_sqrt(16), 4);
    assert_eq!(ceil_sqrt(17), 5);
    assert_eq!(ceil_sqrt(u64::MAX), 0x1_0000_0000);
}

#[test]
fn clamp_len_scales_long_vectors() {
    assert_eq!(clamp_len(Vec2 { x: 3, y: 4 }, 5), Vec2 { x: 3, y: 4 });
    assert_eq!(clamp_len(Vec2 { x: 30, y: 40 }, 5), Vec2 { x: 3, y: 4 });
    assert_eq!(clamp_len(Vec2 { x: -30, y: 0 }, 10), Vec2 { x: -10, y: 0 });
}

#[test]
fn resting_player_before_start_stays_put() {
    let b = Body { pos: Vec3 { x: 0, y: 0, z: 0 }, vel: Vec3 { x: 0, y: 0, z: 0 }, radius: 1000 };
    let (r, bounced) = step_body(b, Vec2 { x: 0, y: 0 }, 0, false, &motion(), 100);
    assert_eq!(r, b);
    assert!(!bounced);
}

#[test]
fn gravity_after_start() {
    // 200 units/s^2 over 100 ms
    assert_eq!(apply_gravity(0, true, &motion(), 100), -20);
    assert_eq!(apply_gravity(0, false, &motion(), 100), 0);
    // beyond the fall speed the slow acceleration applies
    assert_eq!(apply_gravity(-4000, true, &motion(), 100), -4005);
    let b = Body { pos: Vec3 { x: 0, y: 0, z: 0 }, vel: Vec3 { x: 0, y: 0, z: 0 }, radius: 1000 };
    let (r, _) = step_body(b, Vec2 { x: 0, y: 0 }, 1000, true, &motion(), 100);
    assert_eq!(r.vel.z, -20);
    assert_eq!(r.pos.z, -2);
}

#[test]
fn penetrating_player_is_pushed_back_and_bounces() {
    // tube 5000, radius 1000: the center may reach 4000; it is at 4500, moving outward
    let b = Body { pos: Vec3 { x: 4500, y: 0, z: 0 }, vel: Vec3 { x: 100, y: 0, z: 0 }, radius: 1000 };
    let (r, bounced) = tube_collide(b, &motion());
    assert!(bounced);
    assert_eq!(r.pos, Vec3 { x: 4000, y: 0, z: 0 });
    // leaves the wall at the bounce speed
    assert_eq!(r.vel.x, -700);
}

#[test]
fn penetrating_player_moving_inward_does_not_bounce() {
    let b = Body { pos: Vec3 { x: 0, y: -4600, z: 7 }, vel: Vec3 { x: 0, y: 50, z: 0 }, radius: 1000 };
    let (r, bounced) = tube_collide(b, &motion());
    assert!(!bounced);
    assert_eq!(r.pos, Vec3 { x: 0, y: -4000, z: 7 });
    assert_eq!(r.vel, b.vel);
}

#[test]
fn diagonal_push_back_stays_inside() {
    let b = Body { pos: Vec3 { x: 3000, y: 4000, z: 0 }, vel: Vec3 { x: 300, y: 400, z: 0 }, radius: 1000 };
    let (r, bounced) = tube_collide(b, &motion());
    assert!(bounced);
    assert!(r.pos.x * r.pos.x + r.pos.y * r.pos.y <= 4000 * 4000);
    assert_eq!((r.pos.x, r.pos.y), (2400, 3200));
    assert!(-(3000 * r.vel.x + 4000 * r.vel.y) >= 700 * 5000);
}

#[test]
fn one_tick_resolves_penetration() {
    let b = Body { pos: Vec3 { x: 4500, y: 0, z: 0 }, vel: Vec3 { x: 100, y: 0, z: 0 }, radius: 1000 };
    let (r, bounced) = step_body(b, Vec2 { x: 0, y: 0 }, 0, false, &motion(), 10);
    assert!(bounced);
    assert!(r.pos.x <= 4000);
}

#[test]
fn player_inside_tube_is_untouched() {
    let b = Body { pos: Vec3 { x: 100, y: 100, z: 0 }, vel: Vec3 { x: 100, y: 0, z: 0 }, radius: 1000 };
    let (r, bounced) = tube_collide(b, &motion());
    assert!(!bounced);
    assert_eq!(r, b);
}

#[test]
fn integrate_moves_by_velocity() {
    let b = Body { pos: Vec3 { x: 0, y: 0, z: 0 }, vel: Vec3 { x: 1000, y: -1000, z: 15 }, radius: 1 };
    let r = integrate(b, 100);
    assert_eq!(r.pos, Vec3 { x: 100, y: -100, z: 1 });
}

#[test]
fn coin_just_within_reach_is_collected() {
    let pos = Vec3 { x: 0, y: 0, z: 0 };
    // player radius 1000, coin radius 300: reach 1300; the coin sits at 1299
    let coins = vec![Vec3 { x: 5000, y: 0, z: 0 }, Vec3 { x: 1299, y: 0, z: 0 }];
    assert_eq!(find_coin(&coins, pos, 1300), Some(1));
    let far = vec![Vec3 { x: 1300, y: 0, z: 0 }];
    assert_eq!(find_coin(&far, pos, 1300), None);
}

#[test]
fn steering_is_capped_by_acceleration() {
    let b = Body { pos: Vec3 { x: 0, y: 0, z: 0 }, vel: Vec3 { x: 0, y: 0, z: 0 }, radius: 1000 };
    // acceleration 1000 over 100 ms allows a change of 100
    let (r, _) = step_body(b, Vec2 { x: 3000, y: 4000 }, 1000, true, &motion(), 100);
    assert_eq!((r.vel.x, r.vel.y), (60, 80));
    // half of the start ramp halves the target
    let (h, _) = step_body(b, Vec2 { x: 60, y: 80 }, 500, true, &motion(), 100);
    assert_eq!((h.vel.x, h.vel.y), (30, 40));
}
