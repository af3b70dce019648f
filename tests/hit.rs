use meowjelly::geom::Vec3;
use meowjelly::hittest::{is_fatal, passes_through, player_dies, AlphaMask, Obstacle, Placement, SignedDist};

fn flat(z: i64, mask: usize) -> Obstacle {
    Obstacle {
        z,
        placement: Placement {
            ax: Vec3 { x: 10, y: 0, z: 0 },
            ay: Vec3 { x: 0, y: 10, z: 0 },
            az: Vec3 { x: 0, y: 0, z: 1 },
            den: 1,
        },
        mask,
    }
}

fn solid() -> AlphaMask {
    AlphaMask { data: vec![vec![255, 255], vec![255, 255]] }
}

#[test]
fn ray_meets_plane_at_signed_distance() {
    let o = flat(0, 0);
    let h = o.hittest(&solid(), Vec3 { x: 0, y: 0, z: 5 }).unwrap();
    assert_eq!(h.num * 1, -5 * h.den);
    let below = o.hittest(&solid(), Vec3 { x: 3, y: -4, z: -2 }).unwrap();
    assert_eq!(below.num, 2 * below.den);
}

#[test]
fn point_outside_square_misses() {
    let o = flat(0, 0);
    assert!(o.hittest(&solid(), Vec3 { x: 11, y: 0, z: 5 }).is_none());
    assert!(o.hittest(&solid(), Vec3 { x: 0, y: -12, z: 5 }).is_none());
}

#[test]
fn far_edge_of_square_misses() {
    // u = 1 exactly maps to the column past the last one
    let o = flat(0, 0);
    assert!(o.hittest(&solid(), Vec3 { x: 10, y: 0, z: 5 }).is_none());
}

#[test]
fn transparent_pixel_misses() {
    let o = flat(0, 0);
    let m = AlphaMask { data: vec![vec![0, 255], vec![255, 255]] };
    // u = v = -0.5 lands on pixel (0, 0)
    assert!(o.hittest(&m, Vec3 { x: -5, y: -5, z: 5 }).is_none());
    assert!(o.hittest(&m, Vec3 { x: 5, y: 5, z: 5 }).is_some());
}

#[test]
fn sign_change_between_samples_is_fatal() {
    let prev = SignedDist { num: 2, den: 10 };
    let new = SignedDist { num: -1, den: 10 };
    assert!(is_fatal(prev, new, 0));
}

#[test]
fn grazing_closer_than_death_distance_is_fatal() {
    let prev = SignedDist { num: 5, den: 1 };
    let new = SignedDist { num: 3, den: 2 };
    assert!(is_fatal(prev, new, 2));
    assert!(!is_fatal(prev, new, 1));
}

#[test]
fn touching_plane_counts_as_crossing() {
    let prev = SignedDist { num: 0, den: 1 };
    let new = SignedDist { num: 7, den: 1 };
    assert!(is_fatal(prev, new, 0));
}

#[test]
fn moving_through_obstacle_kills() {
    let obs = vec![flat(0, 0)];
    let masks = vec![solid()];
    assert!(player_dies(&obs, &masks, Vec3 { x: 0, y: 0, z: 2 }, Vec3 { x: 0, y: 0, z: -1 }, 0));
    assert!(!player_dies(&obs, &masks, Vec3 { x: 0, y: 0, z: 9 }, Vec3 { x: 0, y: 0, z: 8 }, 1));
    assert!(player_dies(&obs, &masks, Vec3 { x: 0, y: 0, z: 9 }, Vec3 { x: 0, y: 0, z: 8 }, 9));
}

#[test]
fn passing_beside_obstacle_is_harmless() {
    let obs = vec![flat(0, 0)];
    let masks = vec![solid()];
    assert!(!passes_through(&obs, &masks, Vec3 { x: 20, y: 0, z: 2 }, Vec3 { x: 20, y: 0, z: -1 }));
    assert!(passes_through(&obs, &masks, Vec3 { x: 1, y: 1, z: 2 }, Vec3 { x: 1, y: 1, z: -1 }));
}
