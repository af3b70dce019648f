use meowjelly::config::MinMax;
use meowjelly::game::{ambience, bounce_axis, movement_emission, shake_reroll, camera_drift, camera_follow, count_passed, field_of_view, record_score, restart_allowed, shake_amount, should_start};
use meowjelly::geom::{Vec2, Vec3};
use meowjelly::hittest::{AlphaMask, Obstacle, Placement};
use meowjelly::physics::{bounce_off, key_target, Body, Motion};
use meowjelly::rng::Rng;
use meowjelly::scheduler::ContentConfig;
use meowjelly::score::{DigitPlace, FancyNumber};
use meowjelly::state::{Controls, Event, GameState, Config};

fn tuning() -> Config {
    Config {
        motion: Motion {
            tube_radius: 5000,
            fall_speed: 3000,
            fall_acceleration: 200,
            fall_slow_acceleration: 50,
            acceleration: 1000,
            bounce_speed: 700,
            gravity_after_start: true,
        },
        start_time: 1000,
        finish_time: 2000,
        bounce_time: 500,
        shake_time: 300,
        death_distance: 10,
        coin_radius: 300,
        camera_distance: 2000,
        horizontal_movement: 500,
        camera_acceleration: 100,
        coin_score: 5000,
        distance_score: 1,
    }
}

fn plate() -> Obstacle {
    Obstacle {
        z: 0,
        placement: Placement {
            ax: Vec3 { x: 5000, y: 0, z: 0 },
            ay: Vec3 { x: 0, y: 1000, z: 0 },
            az: Vec3 { x: 0, y: 0, z: 1 },
            den: 1,
        },
        mask: 0,
    }
}

fn content_config() -> ContentConfig {
    ContentConfig {
        wall_lengths: vec![4000],
        variants: vec![plate()],
        coin_spots: vec![Vec2 { x: 2500, y: 0 }],
        gap: MinMax { min: 3000, max: 6000 },
        far_clip: 20000,
        margin: 10,
    }
}

fn masks() -> Vec<AlphaMask> {
    vec![AlphaMask { data: vec![vec![255; 4]; 4] }]
}

fn ring() -> Vec<Vec2> {
    vec![Vec2 { x: 0, y: 1000 }, Vec2 { x: 1000, y: 0 }, Vec2 { x: 0, y: -1000 }, Vec2 { x: -1000, y: 0 }]
}

#[test]
fn fov_eases_from_start_to_play() {
    assert_eq!(field_of_view(None, 60, 90), 60);
    assert_eq!(field_of_view(Some(500), 60, 90), 75);
    assert_eq!(field_of_view(Some(2500), 60, 90), 90);
}

#[test]
fn shake_fades_linearly() {
    assert_eq!(shake_amount(300, 300, 10), 10);
    assert_eq!(shake_amount(150, 300, 10), 5);
    assert_eq!(shake_amount(0, 300, 10), 0);
    assert_eq!(shake_amount(-5, 300, 10), 0);
}

#[test]
fn camera_follows_player() {
    let c = camera_follow(Vec3 { x: 1000, y: -300, z: -50 }, 500, 2000);
    assert_eq!(c, Vec3 { x: 500, y: -150, z: 1950 });
}

#[test]
fn passes_are_counted() {
    let mut a = plate();
    a.z = -10;
    let mut b = plate();
    b.z = -30;
    let obs = vec![a, b];
    assert_eq!(count_passed(&obs, 0, -20), 1);
    assert_eq!(count_passed(&obs, -10, -40), 2);
    assert_eq!(count_passed(&obs, -40, -50), 0);
}

#[test]
fn best_score_is_kept() {
    assert_eq!(record_score(10, 7), (10, true));
    assert_eq!(record_score(5, 7), (7, false));
    assert_eq!(record_score(7, 7), (7, false));
}

#[test]
fn restart_waits_for_finish_ramp() {
    assert!(!restart_allowed(None));
    assert!(!restart_allowed(Some(1000)));
    assert!(restart_allowed(Some(1001)));
}

#[test]
fn run_starts_on_first_input() {
    assert!(should_start(None, Vec2 { x: 1, y: 0 }, false));
    assert!(should_start(None, Vec2 { x: 0, y: 0 }, true));
    assert!(!should_start(None, Vec2 { x: 0, y: 0 }, false));
    assert!(!should_start(Some(3), Vec2 { x: 1, y: 0 }, false));
}

#[test]
fn camera_drift_decelerates_and_stays_in_tube() {
    let cam = Body { pos: Vec3 { x: 3900, y: 0, z: 100 }, vel: Vec3 { x: 1000, y: 0, z: -200 }, radius: 1000 };
    let r = camera_drift(cam, 100, 500, 4000);
    assert_eq!(r.pos, Vec3 { x: 4000, y: 0, z: 80 });
    // the whole velocity loses 50 of its length 1020 (rounded up)
    assert_eq!(r.vel, Vec3 { x: 951, y: 0, z: -191 });
}

#[test]
fn diagonal_keys_are_shortened() {
    assert_eq!(key_target(true, false, false, false, 1000), Vec2 { x: 0, y: 1000 });
    assert_eq!(key_target(true, false, false, true, 1000), Vec2 { x: 706, y: 706 });
    assert_eq!(key_target(true, false, true, false, 1000), Vec2 { x: 0, y: 0 });
}

#[test]
fn bounce_off_obstacle_sets_normal_speed() {
    let v = bounce_off(Vec3 { x: 100, y: 0, z: -5 }, Vec2 { x: -10, y: 0 }, 700);
    assert_eq!(v, Vec3 { x: -700, y: 0, z: -5 });
}

#[test]
fn digits_roll_toward_score() {
    let mut n = FancyNumber::new(0);
    assert_eq!(n.width(), 1);
    n.set_value(123);
    n.update(1000);
    assert_eq!(n.width(), 3);
    let shown: Vec<i64> = n.digits.iter().map(|d| d.current_value).collect();
    assert_eq!(shown, vec![123000, 12000, 1000]);
    n.set_value(5);
    n.update(500);
    assert_eq!(n.width(), 1);
    assert_eq!(n.digits[0].current_value, 64000);
}

#[test]
fn digit_place_eases_halfway() {
    let mut d = DigitPlace::new();
    assert_eq!(d.current_value, -500);
    d.update(1, 500);
    assert_eq!(d.current_value, 250);
}

#[test]
fn run_fills_content_and_starts_on_input() {
    let t = tuning();
    let mut g = GameState::new(3, 0, 1000);
    let mut rng = Rng::new(1);
    let idle = Controls { target: Vec2 { x: 0, y: 0 }, touching: false };
    let ev = g.update(16, idle, &t, &masks(), &ring(), &content_config(), &mut rng);
    assert!(ev.is_empty());
    assert!(g.started.is_none());
    assert!(!g.content.walls.is_empty());
    assert!(!g.content.obstacles.is_empty());
    assert!(g.player.is_some());
    let go = Controls { target: Vec2 { x: 1000, y: 0 }, touching: false };
    let ev = g.update(16, go, &t, &masks(), &ring(), &content_config(), &mut rng);
    assert!(ev.contains(&Event::Started));
    assert!(g.started.is_some());
}

#[test]
fn coin_within_reach_is_collected() {
    let t = tuning();
    let mut g = GameState::new(3, 0, 1000);
    g.content.coins.push(Vec3 { x: 1299, y: 0, z: 0 });
    let mut rng = Rng::new(1);
    let idle = Controls { target: Vec2 { x: 0, y: 0 }, touching: false };
    let ev = g.update(16, idle, &t, &masks(), &ring(), &content_config(), &mut rng);
    assert_eq!(g.money, 4);
    assert!(ev.contains(&Event::Coin(Vec3 { x: 1299, y: 0, z: 0 })));
    assert_eq!(g.score, 5000);
}

#[test]
fn falling_through_obstacle_ends_run() {
    let t = tuning();
    let mut g = GameState::new(0, 0, 1000);
    let mut p = plate();
    p.z = -10;
    g.content.obstacles.push(p);
    if let Some(b) = g.player.as_mut() {
        b.vel.z = -1000;
    }
    let mut rng = Rng::new(2);
    let idle = Controls { target: Vec2 { x: 0, y: 0 }, touching: false };
    let ev = g.update(16, idle, &t, &masks(), &ring(), &content_config(), &mut rng);
    assert!(g.player.is_none());
    assert_eq!(g.death_location, Some(Vec3 { x: 0, y: 0, z: -16 }));
    assert_eq!(g.shake_left, 300);
    assert!(ev.contains(&Event::Died(Vec3 { x: 0, y: 0, z: -16 })));
    let ev = g.update(16, idle, &t, &masks(), &ring(), &content_config(), &mut rng);
    assert!(g.finished.is_some());
    assert!(ev.iter().any(|e| matches!(e, Event::Finished(_, _))));
    assert!(!g.can_restart());
}

#[test]
fn bounce_off_sets_normal_speed_when_leaving_fast() {
    let v = bounce_off(Vec3 { x: -2000, y: 0, z: 0 }, Vec2 { x: -10, y: 0 }, 700);
    assert_eq!(v, Vec3 { x: -700, y: 0, z: 0 });
}

#[test]
fn new_run_starts_at_origin_without_shake() {
    let g = GameState::new(7, 9, 1000);
    assert_eq!(g.camera.pos, Vec3 { x: 0, y: 0, z: 0 });
    assert_eq!(g.shake_left, 0);
    assert_eq!(g.money, 7);
    assert_eq!(g.best_score, 9);
}

fn idle() -> Controls {
    Controls { target: Vec2 { x: 0, y: 0 }, touching: false }
}

#[test]
fn resting_unstarted_player_stays_put_in_a_tick() {
    let t = tuning();
    let mut g = GameState::new(0, 0, 1000);
    let mut rng = Rng::new(1);
    g.update(100, idle(), &t, &masks(), &ring(), &content_config(), &mut rng);
    let p = g.player.unwrap();
    assert_eq!(p.pos, Vec3 { x: 0, y: 0, z: 0 });
    assert_eq!(p.vel, Vec3 { x: 0, y: 0, z: 0 });
    assert!(g.started.is_none());
}

#[test]
fn gravity_acts_in_a_started_tick() {
    let t = tuning();
    let mut g = GameState::new(0, 0, 1000);
    g.started = Some(2000);
    let mut rng = Rng::new(1);
    g.update(100, idle(), &t, &masks(), &ring(), &content_config(), &mut rng);
    let p = g.player.unwrap();
    // 200 units/s^2 over 100 ms, then 20 units/s over 100 ms
    assert_eq!(p.vel.z, -20);
    assert_eq!(p.pos.z, -2);
    assert_eq!(g.camera.pos, Vec3 { x: 0, y: 0, z: -2 + 2000 });
}

#[test]
fn penetrating_player_bounces_in_a_tick() {
    let t = tuning();
    let mut g = GameState::new(0, 0, 1000);
    if let Some(b) = g.player.as_mut() {
        b.pos = Vec3 { x: 4500, y: 0, z: 0 };
        b.vel = Vec3 { x: 100, y: 0, z: 0 };
    }
    let mut rng = Rng::new(3);
    let ev = g.update(10, idle(), &t, &masks(), &ring(), &content_config(), &mut rng);
    let p = g.player.unwrap();
    assert_eq!(p.vel.x, -700);
    assert_eq!(p.pos.x, 4000 - 7);
    assert_eq!(g.bounce, Some(0));
    assert_eq!(g.shake_left, 300);
    assert!(ev.contains(&Event::Bounced(p.pos)));
}

#[test]
fn second_tick_without_time_changes_no_content() {
    let t = tuning();
    let mut g = GameState::new(0, 0, 1000);
    let mut rng = Rng::new(5);
    g.update(16, idle(), &t, &masks(), &ring(), &content_config(), &mut rng);
    let walls = g.content.walls.clone();
    let obs: Vec<i64> = g.content.obstacles.iter().map(|o| o.z).collect();
    let coins = g.content.coins.clone();
    g.update(0, idle(), &t, &masks(), &ring(), &content_config(), &mut rng);
    assert_eq!(g.content.walls, walls);
    assert_eq!(g.content.obstacles.iter().map(|o| o.z).collect::<Vec<_>>(), obs);
    assert_eq!(g.content.coins, coins);
}

#[test]
fn shake_offset_is_drawn_when_its_timer_runs_out() {
    let mut rng = Rng::new(8);
    let (next, offset) = shake_reroll(10, 5, 50, &mut rng);
    assert_eq!((next, offset), (5, None));
    let (next, offset) = shake_reroll(3, 5, 50, &mut rng);
    assert_eq!(next, 50);
    let o = offset.unwrap();
    assert!(o.x * o.x + o.y * o.y <= 1000 * 1000);
}

#[test]
fn bounce_axis_components_are_bounded() {
    let mut rng = Rng::new(12);
    for _ in 0..20 {
        let a = bounce_axis(&mut rng);
        assert!(a.x.abs() <= 1000 && a.y.abs() <= 1000 && a.z.abs() <= 1000);
    }
}

#[test]
fn movement_emission_follows_fall_speed() {
    assert_eq!(movement_emission(16, -3000, 3000), 16);
    assert_eq!(movement_emission(16, 1500, 3000), 8);
    assert_eq!(movement_emission(16, 0, 3000), 0);
}

#[test]
fn gravity_acts_before_start_when_not_gated() {
    let mut t = tuning();
    t.motion.gravity_after_start = false;
    let mut g = GameState::new(0, 0, 1000);
    let mut rng = Rng::new(1);
    g.update(100, idle(), &t, &masks(), &ring(), &content_config(), &mut rng);
    let p = g.player.unwrap();
    assert!(g.started.is_none());
    assert_eq!(p.vel.z, -20);
    assert_eq!(p.pos.z, -2);
}

#[test]
fn bounce_axis_is_the_next_three_draws() {
    let mut rng = Rng::new(77);
    let mut check = Rng::new(77);
    let a = bounce_axis(&mut rng);
    let x = -1000 + (check.next() % 2001) as i64;
    let y = -1000 + (check.next() % 2001) as i64;
    let z = -1000 + (check.next() % 2001) as i64;
    assert_eq!((a.x, a.y, a.z), (x, y, z));
    assert_eq!(rng.state, check.state);
}

#[test]
fn ambience_follows_speed_ratios() {
    // cross-section speed 500 of 1000, fall 1500 of 3000
    let (wind, swim) = ambience(Vec3 { x: 300, y: 400, z: -1500 }, 1000, 3000, 600, 400, 800);
    assert_eq!(wind, 300 + 200);
    assert_eq!(swim, 400);
    assert_eq!(ambience(Vec3 { x: 0, y: 0, z: 0 }, 1000, 3000, 600, 400, 800), (0, 0));
}
