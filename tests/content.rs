use meowjelly::config::MinMax;
use meowjelly::geom::{Vec2, Vec3};
use meowjelly::hittest::{Obstacle, Placement};
use meowjelly::rng::Rng;
use meowjelly::scheduler::{Content, ContentConfig};

fn config() -> ContentConfig {
    ContentConfig {
        wall_lengths: vec![30, 50],
        variants: vec![Obstacle {
            z: 0,
            placement: Placement {
                ax: Vec3 { x: 5, y: 0, z: 0 },
                ay: Vec3 { x: 0, y: 5, z: 0 },
                az: Vec3 { x: 0, y: 0, z: 1 },
                den: 1,
            },
            mask: 0,
        }],
        coin_spots: vec![Vec2 { x: 2, y: 0 }, Vec2 { x: 0, y: 2 }],
        gap: MinMax { min: 20, max: 40 },
        far_clip: 200,
        margin: 10,
    }
}

#[test]
fn refresh_fills_window_below_camera() {
    let cfg = config();
    let mut rng = Rng::new(7);
    let mut c = Content::new();
    c.refresh(5, &cfg, &mut rng);
    let far = 5 - 200;
    assert!(c.walls.last().unwrap().end <= far);
    assert!(c.obstacles.last().unwrap().z <= far);
    // walls tile the tube without gaps, each as long as its texture asks
    for (k, w) in c.walls.iter().enumerate() {
        let expected_start = if k == 0 { 0 } else { c.walls[k - 1].end };
        assert_eq!(w.start, expected_start);
        assert_eq!(w.start - w.end, cfg.wall_lengths[w.texture]);
    }
    // obstacles descend by gaps within range, one coin per obstacle
    let mut prev = 0;
    for o in &c.obstacles {
        let gap = prev - o.z;
        assert!(20 <= gap && gap <= 40);
        prev = o.z;
    }
    assert_eq!(c.coins.len(), c.obstacles.len());
}

#[test]
fn refresh_twice_changes_nothing() {
    let cfg = config();
    let mut rng = Rng::new(11);
    let mut c = Content::new();
    c.refresh(5, &cfg, &mut rng);
    let walls = c.walls.clone();
    let obstacles: Vec<i64> = c.obstacles.iter().map(|o| o.z).collect();
    let coins = c.coins.clone();
    c.refresh(5, &cfg, &mut rng);
    assert_eq!(c.walls, walls);
    assert_eq!(c.obstacles.iter().map(|o| o.z).collect::<Vec<_>>(), obstacles);
    assert_eq!(c.coins, coins);
}

#[test]
fn content_behind_camera_is_dropped() {
    let cfg = config();
    let mut rng = Rng::new(3);
    let mut c = Content::new();
    c.refresh(5, &cfg, &mut rng);
    c.refresh(-150, &cfg, &mut rng);
    assert!(c.walls.iter().all(|w| w.end < -150 + 10));
    assert!(c.obstacles.iter().all(|o| o.z < -150 + 10));
    assert!(c.coins.iter().all(|p| p.z < -150));
    assert!(c.obstacles.last().unwrap().z <= -150 - 200);
}

#[test]
fn coin_sits_half_a_gap_above_its_obstacle() {
    let cfg = config();
    let mut rng = Rng::new(5);
    let mut c = Content::new();
    c.refresh(5, &cfg, &mut rng);
    let mut prev = 0;
    for (o, coin) in c.obstacles.iter().zip(c.coins.iter()) {
        let gap = prev - o.z;
        assert_eq!(coin.z, prev - gap / 2);
        assert!(cfg.coin_spots.contains(&Vec2 { x: coin.x, y: coin.y }));
        prev = o.z;
    }
}

#[test]
fn min_max_range_is_inclusive() {
    let m = MinMax { min: 3, max: 9 };
    let r = m.range();
    assert_eq!(*r.start(), 3);
    assert_eq!(*r.end(), 9);
    assert!(r.contains(&9));
}

#[test]
fn rng_is_reproducible() {
    let mut a = Rng::new(42);
    let mut b = Rng::new(42);
    for _ in 0..5 {
        assert_eq!(a.next(), b.next());
    }
    let mut c = Rng::new(1);
    assert_eq!(c.next(), (1 * 1103515245 + 12345) % 0x8000_0000);
    let d = c.between(-3, 3);
    assert!(-3 <= d && d <= 3);
}
