use meowjelly::geom::Vec3;
use meowjelly::particles::{cull, Instance, ParticleSpawner, SpawnerConfig};
use meowjelly::rng::Rng;

fn config() -> SpawnerConfig {
    SpawnerConfig {
        period: 7,
        life: 100,
        extra_life: 20,
        size: 4,
        extra_size: 2,
        extra_vel: 3,
        extra_hue: 10,
        extra_saturation: 10,
        extra_lightness: 10,
    }
}

#[test]
fn split_steps_emit_as_many_as_one_step() {
    let mut rng = Rng::new(9);
    let mut one = ParticleSpawner::new(config());
    let mut out_one: Vec<Instance> = Vec::new();
    one.update(30, 1000, &mut rng, &mut out_one);

    let mut many = ParticleSpawner::new(config());
    let mut out_many: Vec<Instance> = Vec::new();
    let mut now = 970;
    for _ in 0..10 {
        now += 3;
        many.update(3, now, &mut rng, &mut out_many);
    }
    assert_eq!(out_one.len(), out_many.len());
    assert_eq!(one.next, many.next);
    // due at 0, 7, 14, 21, 28 of the 30 ticks: within one of 30 / 7
    assert_eq!(out_one.len(), 5);
    // back-dated start times agree too
    let a: Vec<i64> = out_one.iter().map(|p| p.start_time).collect();
    let b: Vec<i64> = out_many.iter().map(|p| p.start_time).collect();
    assert_eq!(a, b);
    assert_eq!(a, vec![970, 977, 984, 991, 998]);
}

#[test]
fn small_step_may_emit_nothing() {
    let mut rng = Rng::new(1);
    let mut s = ParticleSpawner::new(config());
    s.next = 5;
    let mut out: Vec<Instance> = Vec::new();
    s.update(3, 10, &mut rng, &mut out);
    assert!(out.is_empty());
    assert_eq!(s.next, 2);
}

#[test]
fn particle_attributes_stay_in_ranges() {
    let mut rng = Rng::new(4);
    let mut s = ParticleSpawner::new(config());
    s.pos = Vec3 { x: 1, y: 2, z: 3 };
    s.vel = Vec3 { x: 10, y: -10, z: 5 };
    let mut out: Vec<Instance> = Vec::new();
    for t in 0..20 {
        s.spawn(t, &mut rng, &mut out);
    }
    assert_eq!(out.len(), 20);
    for (t, p) in out.iter().enumerate() {
        assert_eq!(p.pos, Vec3 { x: 1, y: 2, z: 3 });
        assert_eq!(p.start_time, t as i64);
        let life = p.end_time - p.start_time;
        assert!(100 <= life && life < 120);
        assert!(4 <= p.size && p.size < 6);
        let dx = p.vel.x - 10;
        let dy = p.vel.y + 10;
        assert!(dx * dx + dy * dy <= 9);
        assert!((p.vel.z - 5).abs() <= 3);
        assert!(p.hue_shift.abs() <= 10);
    }
}

#[test]
fn expired_particles_are_culled() {
    let p = |end: i64| Instance {
        pos: Vec3 { x: 0, y: 0, z: 0 },
        vel: Vec3 { x: 0, y: 0, z: 0 },
        start_time: 0,
        end_time: end,
        size: 1,
        hue_shift: 0,
        saturation_shift: 0,
        lightness_shift: 0,
    };
    let all = vec![p(5), p(10), p(11), p(3)];
    let kept = cull(&all, 10);
    assert_eq!(kept.len(), 1);
    assert_eq!(kept[0].end_time, 11);
}

#[test]
fn create_without_jitter_is_exact() {
    let c = SpawnerConfig {
        period: 7,
        life: 100,
        extra_life: 0,
        size: 4,
        extra_size: 0,
        extra_vel: 0,
        extra_hue: 0,
        extra_saturation: 0,
        extra_lightness: 0,
    };
    let mut s = ParticleSpawner::new(c);
    s.vel = Vec3 { x: 1, y: 2, z: 3 };
    let mut rng = Rng::new(6);
    let p = s.create(50, &mut rng);
    assert_eq!(p.vel, Vec3 { x: 1, y: 2, z: 3 });
    assert_eq!((p.start_time, p.end_time, p.size), (50, 150, 4));
    assert_eq!((p.hue_shift, p.saturation_shift, p.lightness_shift), (0, 0, 0));
}
