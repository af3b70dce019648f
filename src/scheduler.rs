//! The rolling window of tube content: wall segments, obstacles and coins are
//! generated ahead of the camera down to its far clip, and dropped once they
//! are behind it.
use vstd::prelude::*;
use crate::arith::abs;
use crate::config::MinMax;
use crate::geom::{Vec2, Vec3, vec2_ok, vec3_ok};
use crate::hittest::{Obstacle, obstacle_ok, placement_ok};
use crate::rng::{Rng, MODULUS, state_ok};

verus! {

/// Largest magnitude of the camera's depth.
pub const DEPTH_LIMIT: i64 = 0x40_0000_0000;

/// Largest magnitude of the depth of generated content.
pub const CONTENT_LIMIT: i64 = 0x80_0000_0000;

/// Largest wall length, obstacle gap, far clip or margin.
pub const SPAN_LIMIT: i64 = 0x4000_0000;

/// A segment of the tube's wall, from depth `start` down to depth `end`.
#[derive(Clone, Copy, Debug, PartialEq, Eq, Structural)]
pub struct Wall {
    pub start: i64,
    pub end: i64,
    /// Which wall texture it shows.
    pub texture: usize,
    /// A random turn of the texture around the tube, in units of `2^-31` turns.
    pub texture_shift: u64,
}

/// What the scheduler draws from.
pub struct ContentConfig {
    /// For each wall texture, the segment length at which it tiles around the tube.
    pub wall_lengths: Vec<i64>,
    /// Obstacle shapes to choose from: a baked mask and a placement each.
    pub variants: Vec<Obstacle>,
    /// Cross-section positions a coin may take.
    pub coin_spots: Vec<Vec2>,
    /// Range of the gap between successive obstacles.
    pub gap: MinMax<i64>,
    /// How far below the camera content is generated.
    pub far_clip: i64,
    /// How far above the camera walls and obstacles are kept.
    pub margin: i64,
}

/// The scheduler's lists, furthest generated last.
pub struct Content {
    pub walls: Vec<Wall>,
    pub obstacles: Vec<Obstacle>,
    pub coins: Vec<Vec3>,
}

/// The lists of a `Content`.
pub struct ContentView {
    pub walls: Seq<Wall>,
    pub obstacles: Seq<Obstacle>,
    pub coins: Seq<Vec3>,
}

impl View for Content {
    type V = ContentView;

    open spec fn view(&self) -> ContentView {
        ContentView { walls: self.walls@, obstacles: self.obstacles@, coins: self.coins@ }
    }
}

/// A configuration the scheduler accepts.
#[verifier::opaque]
pub open spec fn config_ok(c: ContentConfig) -> bool {
    &&& 1 <= c.wall_lengths@.len() < MODULUS
    &&& forall|k: int| 0 <= k < c.wall_lengths@.len() ==> 1 <= #[trigger] c.wall_lengths@[k] <= SPAN_LIMIT
    &&& 1 <= c.variants@.len() < MODULUS
    &&& forall|k: int| 0 <= k < c.variants@.len() ==> placement_ok(#[trigger] c.variants@[k].placement)
    &&& 1 <= c.coin_spots@.len() < MODULUS
    &&& forall|k: int| 0 <= k < c.coin_spots@.len() ==> vec2_ok(#[trigger] c.coin_spots@[k])
    &&& 1 <= c.gap.min <= c.gap.max <= SPAN_LIMIT
    &&& 0 <= c.far_clip <= SPAN_LIMIT
    &&& 1 <= c.margin <= SPAN_LIMIT
}

/// A wall within bounds.
pub open spec fn wall_ok(w: Wall) -> bool {
    -CONTENT_LIMIT <= w.end <= CONTENT_LIMIT
}

/// An obstacle within bounds.
pub open spec fn placed_ok(o: Obstacle) -> bool {
    obstacle_ok(o) && -CONTENT_LIMIT <= o.z <= CONTENT_LIMIT
}

/// A coin within bounds.
pub open spec fn coin_ok(p: Vec3) -> bool {
    vec3_ok(p) && -CONTENT_LIMIT <= p.z <= CONTENT_LIMIT
}

/// Content within bounds.
pub open spec fn content_ok(s: ContentView) -> bool {
    &&& forall|k: int| 0 <= k < s.walls.len() ==> wall_ok(#[trigger] s.walls[k])
    &&& forall|k: int| 0 <= k < s.obstacles.len() ==> placed_ok(#[trigger] s.obstacles[k])
    &&& forall|k: int| 0 <= k < s.coins.len() ==> coin_ok(#[trigger] s.coins[k])
}

/// Where the next wall starts: the far edge of the last one, or `0`.
pub open spec fn wall_frontier(ws: Seq<Wall>) -> int {
    if ws.len() == 0 {
        0
    } else {
        ws.last().end as int
    }
}

/// Where the next obstacle's gap starts: the depth of the last one, or `0`.
pub open spec fn obstacle_frontier(os: Seq<Obstacle>) -> int {
    if os.len() == 0 {
        0
    } else {
        os.last().z as int
    }
}

/// The camera's far depth: below it nothing needs to exist yet.
pub open spec fn far_depth(camera_z: int, c: ContentConfig) -> int {
    camera_z - c.far_clip
}

/// Walls that are kept: their far edge lies less than `margin` above the camera.
pub open spec fn keep_wall(camera_z: int, margin: int) -> spec_fn(Wall) -> bool {
    |w: Wall| w.end < camera_z + margin
}

/// Obstacles that are kept: less than `margin` above the camera.
pub open spec fn keep_obstacle(camera_z: int, margin: int) -> spec_fn(Obstacle) -> bool {
    |o: Obstacle| o.z < camera_z + margin
}

/// Coins that are kept: below the camera.
pub open spec fn keep_coin(camera_z: int) -> spec_fn(Vec3) -> bool {
    |p: Vec3| p.z < camera_z
}

/// Each wall of `gen` starts where the previous one, in `old` then `gen`, ends
/// (or at `0`), is as long as its texture asks, and was needed when it was made.
pub open spec fn wall_chain(old: Seq<Wall>, gen: Seq<Wall>, far: int, c: ContentConfig) -> bool
    decreases gen.len(),
{
    if gen.len() == 0 {
        true
    } else {
        let w = gen.last();
        let rest = gen.drop_last();
        &&& wall_chain(old, rest, far, c)
        &&& w.start == wall_frontier(old + rest)
        &&& w.texture < c.wall_lengths@.len()
        &&& w.end == w.start - c.wall_lengths@[w.texture as int]
        &&& w.texture_shift < MODULUS
        &&& (old + rest).len() == 0 || w.start > far
    }
}

/// Walls `gen` continue `old` down past the far depth, and the last one reaches it.
pub open spec fn walls_extend(old: Seq<Wall>, gen: Seq<Wall>, far: int, c: ContentConfig) -> bool {
    &&& wall_chain(old, gen, far, c)
    &&& (old + gen).len() > 0
    &&& wall_frontier(old + gen) <= far
}

/// Each obstacle of `gen` lies a gap within range below the previous one, in
/// `old` then `gen` (or below `0`), takes the variant of the same index of
/// `picks`, and was needed when it was made; its coin, at the same index of
/// `coins`, stands at the coin spot of the same index of `spots`, half the gap
/// above it.
pub open spec fn obstacle_chain(
    old: Seq<Obstacle>,
    gen: Seq<Obstacle>,
    coins: Seq<Vec3>,
    picks: Seq<int>,
    spots: Seq<int>,
    far: int,
    c: ContentConfig,
) -> bool
    decreases gen.len(),
{
    if coins.len() != gen.len() || picks.len() != gen.len() || spots.len() != gen.len() {
        false
    } else if gen.len() == 0 {
        true
    } else {
        let o = gen.last();
        let rest = gen.drop_last();
        let prev = obstacle_frontier(old + rest);
        let gap = prev - o.z;
        let v = picks.last();
        let s = spots.last();
        &&& obstacle_chain(old, rest, coins.drop_last(), picks.drop_last(), spots.drop_last(), far, c)
        &&& c.gap.min <= gap <= c.gap.max
        &&& 0 <= v < c.variants@.len()
        &&& o.placement == c.variants@[v].placement
        &&& o.mask == c.variants@[v].mask
        &&& 0 <= s < c.coin_spots@.len()
        &&& coins.last() == (Vec3 {
            x: c.coin_spots@[s].x,
            y: c.coin_spots@[s].y,
            z: (prev - gap / 2) as i64,
        })
        &&& (old + rest).len() == 0 || prev > far
    }
}

/// Obstacles `gen`, with their `coins`, continue `old` down past the far depth,
/// and the last one reaches it.
pub open spec fn obstacles_extend(
    old: Seq<Obstacle>,
    gen: Seq<Obstacle>,
    coins: Seq<Vec3>,
    picks: Seq<int>,
    spots: Seq<int>,
    far: int,
    c: ContentConfig,
) -> bool {
    &&& obstacle_chain(old, gen, coins, picks, spots, far, c)
    &&& (old + gen).len() > 0
    &&& obstacle_frontier(old + gen) <= far
}

/// One step of the scheduler from `s0` to `s1` for a camera at depth `camera_z`:
/// walls and obstacles are generated, then those behind the camera are dropped;
/// coins behind the camera are dropped before the new ones are added.
pub open spec fn refreshed(s0: ContentView, s1: ContentView, camera_z: int, c: ContentConfig) -> bool {
    let far = far_depth(camera_z, c);
    &&& exists|gw: Seq<Wall>|
        walls_extend(s0.walls, gw, far, c) && s1.walls == (s0.walls + gw).filter(
            keep_wall(camera_z, c.margin as int),
        )
    &&& exists|go: Seq<Obstacle>, gc: Seq<Vec3>, picks: Seq<int>, spots: Seq<int>|
        obstacles_extend(s0.obstacles, go, gc, picks, spots, far, c) && s1.obstacles == (s0.obstacles
            + go).filter(keep_obstacle(camera_z, c.margin as int)) && s1.coins == s0.coins.filter(
            keep_coin(camera_z),
        ) + gc
}

impl Content {
    /// Empty lists.
    pub fn new() -> (r: Content)
        ensures
            r@.walls.len() == 0,
            r@.obstacles.len() == 0,
            r@.coins.len() == 0,
    {
        Content { walls: Vec::new(), obstacles: Vec::new(), coins: Vec::new() }
    }
}

fn last_wall_end(ws: &Vec<Wall>) -> (r: Option<i64>)
    ensures
        ws@.len() == 0 ==> r is None,
        ws@.len() > 0 ==> r == Some(ws@.last().end),
{
    if ws.len() == 0 {
        None
    } else {
        Some(ws[ws.len() - 1].end)
    }
}

fn last_obstacle_z(os: &Vec<Obstacle>) -> (r: Option<i64>)
    ensures
        os@.len() == 0 ==> r is None,
        os@.len() > 0 ==> r == Some(os@.last().z),
{
    if os.len() == 0 {
        None
    } else {
        Some(os[os.len() - 1].z)
    }
}

fn retain_walls(v: &Vec<Wall>, camera_z: i64, margin: i64) -> (r: Vec<Wall>)
    requires
        -DEPTH_LIMIT <= camera_z <= DEPTH_LIMIT,
        0 <= margin <= SPAN_LIMIT,
    ensures
        r@ == v@.filter(keep_wall(camera_z as int, margin as int)),
{
    let mut r: Vec<Wall> = Vec::new();
    let mut i: usize = 0;
    while i < v.len()
        invariant
            -DEPTH_LIMIT <= camera_z <= DEPTH_LIMIT,
            0 <= margin <= SPAN_LIMIT,
            i <= v@.len(),
            r@ == v@.subrange(0, i as int).filter(keep_wall(camera_z as int, margin as int)),
        decreases v@.len() - i,
    {
        proof {
            v@.subrange(0, i as int).lemma_filter_push(v@[i as int], keep_wall(camera_z as int, margin as int));
            assert(v@.subrange(0, i + 1) == v@.subrange(0, i as int).push(v@[i as int]));
        }
        if v[i].end < camera_z + margin {
            r.push(v[i]);
        }
        i = i + 1;
    }
    assert(v@.subrange(0, i as int) == v@);
    r
}

fn retain_obstacles(v: &Vec<Obstacle>, camera_z: i64, margin: i64) -> (r: Vec<Obstacle>)
    requires
        -DEPTH_LIMIT <= camera_z <= DEPTH_LIMIT,
        0 <= margin <= SPAN_LIMIT,
    ensures
        r@ == v@.filter(keep_obstacle(camera_z as int, margin as int)),
{
    let mut r: Vec<Obstacle> = Vec::new();
    let mut i: usize = 0;
    while i < v.len()
        invariant
            -DEPTH_LIMIT <= camera_z <= DEPTH_LIMIT,
            0 <= margin <= SPAN_LIMIT,
            i <= v@.len(),
            r@ == v@.subrange(0, i as int).filter(keep_obstacle(camera_z as int, margin as int)),
        decreases v@.len() - i,
    {
        proof {
            v@.subrange(0, i as int).lemma_filter_push(v@[i as int], keep_obstacle(camera_z as int, margin as int));
            assert(v@.subrange(0, i + 1) == v@.subrange(0, i as int).push(v@[i as int]));
        }
        if v[i].z < camera_z + margin {
            r.push(v[i]);
        }
        i = i + 1;
    }
    assert(v@.subrange(0, i as int) == v@);
    r
}

fn retain_coins(v: &Vec<Vec3>, camera_z: i64) -> (r: Vec<Vec3>)
    ensures
        r@ == v@.filter(keep_coin(camera_z as int)),
{
    let mut r: Vec<Vec3> = Vec::new();
    let mut i: usize = 0;
    while i < v.len()
        invariant
            i <= v@.len(),
            r@ == v@.subrange(0, i as int).filter(keep_coin(camera_z as int)),
        decreases v@.len() - i,
    {
        proof {
            v@.subrange(0, i as int).lemma_filter_push(v@[i as int], keep_coin(camera_z as int));
            assert(v@.subrange(0, i + 1) == v@.subrange(0, i as int).push(v@[i as int]));
        }
        if v[i].z < camera_z {
            r.push(v[i]);
        }
        i = i + 1;
    }
    assert(v@.subrange(0, i as int) == v@);
    r
}

/// Everything a filter keeps satisfies its predicate and comes from the input.
proof fn lemma_filter_within<A>(s: Seq<A>, pred: spec_fn(A) -> bool, ok: spec_fn(A) -> bool)
    requires
        forall|k: int| 0 <= k < s.len() ==> #[trigger] ok(s[k]),
    ensures
        forall|k: int| 0 <= k < s.filter(pred).len() ==> #[trigger] ok(s.filter(pred)[k]),
    decreases s.len(),
{
    reveal(Seq::filter);
    if s.len() > 0 {
        let d = s.drop_last();
        assert forall|k: int| 0 <= k < d.len() implies #[trigger] ok(d[k]) by {
            assert(d[k] == s[k]);
        }
        lemma_filter_within(d, pred, ok);
        assert(ok(s[s.len() - 1]));
        let f = s.filter(pred);
        if pred(s.last()) {
            assert(f == d.filter(pred).push(s.last()));
            assert forall|k: int| 0 <= k < f.len() implies #[trigger] ok(f[k]) by {
                if k < f.len() - 1 {
                    assert(f[k] == d.filter(pred)[k]);
                }
            }
        } else {
            assert(f == d.filter(pred));
        }
    }
}

/// The next wall, starting at `start`.
fn make_wall(start: i64, cfg: &ContentConfig, rng: &mut Rng) -> (w: Wall)
    requires
        config_ok(*cfg),
        state_ok(old(rng).state),
        -CONTENT_LIMIT + SPAN_LIMIT <= start <= CONTENT_LIMIT,
    ensures
        w.start == start,
        w.texture < cfg.wall_lengths@.len(),
        w.end == w.start - cfg.wall_lengths@[w.texture as int],
        start - SPAN_LIMIT <= w.end < start,
        w.texture_shift < MODULUS,
        state_ok(final(rng).state),
{
    reveal(config_ok);
    let texture = rng.below(cfg.wall_lengths.len() as u64) as usize;
    let len = cfg.wall_lengths[texture];
    assert(1 <= cfg.wall_lengths@[texture as int] <= SPAN_LIMIT);
    let shift = rng.next();
    Wall { start, end: start - len, texture, texture_shift: shift }
}

/// The next obstacle below depth `last_z`, with its coin and the variant and
/// coin spot it took.
fn make_obstacle(last_z: i64, cfg: &ContentConfig, rng: &mut Rng) -> (r: (Obstacle, Vec3, Ghost<(int, int)>))
    requires
        config_ok(*cfg),
        state_ok(old(rng).state),
        -CONTENT_LIMIT + SPAN_LIMIT <= last_z <= CONTENT_LIMIT,
    ensures
        ({
            let (o, coin, picked) = r;
            let gap = last_z - o.z;
            let (v, sp) = picked@;
            &&& cfg.gap.min <= gap <= cfg.gap.max
            &&& 1 <= gap <= SPAN_LIMIT
            &&& 0 <= v < cfg.variants@.len()
            &&& o.placement == cfg.variants@[v].placement
            &&& o.mask == cfg.variants@[v].mask
            &&& placed_ok(o)
            &&& 0 <= sp < cfg.coin_spots@.len()
            &&& coin == (Vec3 {
                x: cfg.coin_spots@[sp].x,
                y: cfg.coin_spots@[sp].y,
                z: (last_z - gap / 2) as i64,
            })
            &&& coin_ok(coin)
        }),
        state_ok(final(rng).state),
{
    reveal(config_ok);
    let gap = rng.between(cfg.gap.min, cfg.gap.max);
    let z = last_z - gap;
    let v = rng.below(cfg.variants.len() as u64) as usize;
    let template = cfg.variants[v];
    assert(placement_ok(cfg.variants@[v as int].placement));
    let sp = rng.below(cfg.coin_spots.len() as u64) as usize;
    let spot = cfg.coin_spots[sp];
    assert(vec2_ok(cfg.coin_spots@[sp as int]));
    let coin = Vec3 { x: spot.x, y: spot.y, z: last_z - gap / 2 };
    let o = Obstacle { z, placement: template.placement, mask: template.mask };
    (o, coin, Ghost((v as int, sp as int)))
}

/// Appends walls until the last one reaches the far depth.
#[verifier::rlimit(40)]
fn extend_walls(walls: &mut Vec<Wall>, far: i64, cfg: &ContentConfig, rng: &mut Rng) -> (gen: Ghost<Seq<Wall>>)
    requires
        forall|k: int| 0 <= k < old(walls)@.len() ==> wall_ok(#[trigger] old(walls)@[k]),
        config_ok(*cfg),
        state_ok(old(rng).state),
        -DEPTH_LIMIT - SPAN_LIMIT <= far <= DEPTH_LIMIT,
    ensures
        forall|k: int| 0 <= k < final(walls)@.len() ==> wall_ok(#[trigger] final(walls)@[k]),
        final(walls)@ == old(walls)@ + gen@,
        walls_extend(old(walls)@, gen@, far as int, *cfg),
        state_ok(final(rng).state),
{
    let ghost w0 = walls@;
    let ghost mut gen: Seq<Wall> = Seq::empty();
    let mut need = match last_wall_end(walls) {
        None => true,
        Some(e) => e > far,
    };
    assert(w0 + gen == w0);
    while need
        invariant
            config_ok(*cfg),
            state_ok(rng.state),
            -DEPTH_LIMIT - SPAN_LIMIT <= far <= DEPTH_LIMIT,
            walls@ == w0 + gen,
            wall_chain(w0, gen, far as int, *cfg),
            forall|k: int| 0 <= k < walls@.len() ==> wall_ok(#[trigger] walls@[k]),
            need == (walls@.len() == 0 || wall_frontier(walls@) > far),
        decreases (if !need {
            0
        } else if walls@.len() == 0 {
            abs(far as int) + 2
        } else {
            wall_frontier(walls@) - far
        }),
    {
        let ghost before = walls@;
        let start = match last_wall_end(walls) {
            None => 0,
            Some(e) => e,
        };
        let w = make_wall(start, cfg, rng);
        walls.push(w);
        proof {
            let g2 = gen.push(w);
            assert(g2.drop_last() == gen);
            assert(walls@ == w0 + g2);
            assert(walls@.last() == w);
            assert(wall_frontier(walls@) == w.end);
            if before.len() > 0 {
                assert(start == wall_frontier(before));
            } else {
                assert(start == 0);
            }
            gen = g2;
        }
        need = w.end > far;
    }
    Ghost(gen)
}

/// Appends obstacles, each with its coin, until the last one reaches the far depth.
#[verifier::rlimit(40)]
fn extend_obstacles(
    obstacles: &mut Vec<Obstacle>,
    coins: &mut Vec<Vec3>,
    far: i64,
    cfg: &ContentConfig,
    rng: &mut Rng,
) -> (gen: Ghost<(Seq<Obstacle>, Seq<Vec3>, Seq<int>, Seq<int>)>)
    requires
        forall|k: int| 0 <= k < old(obstacles)@.len() ==> placed_ok(#[trigger] old(obstacles)@[k]),
        forall|k: int| 0 <= k < old(coins)@.len() ==> coin_ok(#[trigger] old(coins)@[k]),
        config_ok(*cfg),
        state_ok(old(rng).state),
        -DEPTH_LIMIT - SPAN_LIMIT <= far <= DEPTH_LIMIT,
    ensures
        forall|k: int| 0 <= k < final(obstacles)@.len() ==> placed_ok(#[trigger] final(obstacles)@[k]),
        forall|k: int| 0 <= k < final(coins)@.len() ==> coin_ok(#[trigger] final(coins)@[k]),
        final(obstacles)@ == old(obstacles)@ + gen@.0,
        final(coins)@ == old(coins)@ + gen@.1,
        obstacles_extend(old(obstacles)@, gen@.0, gen@.1, gen@.2, gen@.3, far as int, *cfg),
        state_ok(final(rng).state),
{
    let ghost o0 = obstacles@;
    let ghost c0 = coins@;
    let ghost mut go: Seq<Obstacle> = Seq::empty();
    let ghost mut gc: Seq<Vec3> = Seq::empty();
    let ghost mut picks: Seq<int> = Seq::empty();
    let ghost mut spots: Seq<int> = Seq::empty();
    let mut need = match last_obstacle_z(obstacles) {
        None => true,
        Some(z) => z > far,
    };
    assert(o0 + go == o0);
    assert(c0 + gc == c0);
    while need
        invariant
            config_ok(*cfg),
            state_ok(rng.state),
            -DEPTH_LIMIT - SPAN_LIMIT <= far <= DEPTH_LIMIT,
            obstacles@ == o0 + go,
            coins@ == c0 + gc,
            obstacle_chain(o0, go, gc, picks, spots, far as int, *cfg),
            forall|k: int| 0 <= k < obstacles@.len() ==> placed_ok(#[trigger] obstacles@[k]),
            forall|k: int| 0 <= k < coins@.len() ==> coin_ok(#[trigger] coins@[k]),
            need == (obstacles@.len() == 0 || obstacle_frontier(obstacles@) > far),
        decreases (if !need {
            0
        } else if obstacles@.len() == 0 {
            abs(far as int) + 2
        } else {
            obstacle_frontier(obstacles@) - far
        }),
    {
        let last_z = match last_obstacle_z(obstacles) {
            None => 0,
            Some(z) => z,
        };
        let (o, coin, picked) = make_obstacle(last_z, cfg, rng);
        let z = o.z;
        coins.push(coin);
        obstacles.push(o);
        proof {
            let g2 = go.push(o);
            let c2 = gc.push(coin);
            let p2 = picks.push(picked@.0);
            let s2 = spots.push(picked@.1);
            assert(g2.drop_last() == go);
            assert(c2.drop_last() == gc);
            assert(p2.drop_last() == picks);
            assert(s2.drop_last() == spots);
            assert(obstacles@ == o0 + g2);
            assert(coins@ == c0 + c2);
            assert(obstacles@.last() == o);
            assert(obstacle_frontier(obstacles@) == z);
            if obstacles@.len() > 1 {
                assert(last_z == obstacle_frontier(o0 + go));
            }
            assert(obstacle_chain(o0, g2, c2, p2, s2, far as int, *cfg));
            go = g2;
            gc = c2;
            picks = p2;
            spots = s2;
        }
        need = z > far;
    }
    Ghost((go, gc, picks, spots))
}

impl Content {
    /// Generates walls and obstacles, with their coins, down to the camera's far
    /// depth, and drops what lies behind the camera.
    pub fn refresh(&mut self, camera_z: i64, cfg: &ContentConfig, rng: &mut Rng)
        requires
            content_ok(old(self)@),
            config_ok(*cfg),
            state_ok(old(rng).state),
            -DEPTH_LIMIT <= camera_z <= DEPTH_LIMIT,
        ensures
            refreshed(old(self)@, final(self)@, camera_z as int, *cfg),
            content_ok(final(self)@),
            state_ok(final(rng).state),
    {
        proof {
            reveal(config_ok);
        }
        let far = camera_z - cfg.far_clip;
        let ghost s0 = self@;
        assert(forall|k: int| 0 <= k < self.walls@.len() ==> wall_ok(#[trigger] self.walls@[k])) by {
            assert(s0.walls == self.walls@);
        }
        assert(forall|k: int| 0 <= k < self.coins@.len() ==> coin_ok(#[trigger] self.coins@[k])) by {
            assert(s0.coins == self.coins@);
        }
        assert(forall|k: int| 0 <= k < self.obstacles@.len() ==> placed_ok(#[trigger] self.obstacles@[k])) by {
            assert(s0.obstacles == self.obstacles@);
        }
        let gw = extend_walls(&mut self.walls, far, cfg, rng);
        let kept_walls = retain_walls(&self.walls, camera_z, cfg.margin);
        proof {
            lemma_filter_within(self.walls@, keep_wall(camera_z as int, cfg.margin as int), |w: Wall| wall_ok(w));
        }
        self.walls = kept_walls;
        assert forall|k: int| 0 <= k < self.walls@.len() implies #[trigger] wall_ok(self.walls@[k]) by {
            let f = |w: Wall| wall_ok(w);
            assert(f(self.walls@[k]));
        }
        let kept_coins = retain_coins(&self.coins, camera_z);
        proof {
            lemma_filter_within(self.coins@, keep_coin(camera_z as int), |p: Vec3| coin_ok(p));
        }
        self.coins = kept_coins;
        assert forall|k: int| 0 <= k < self.coins@.len() implies #[trigger] coin_ok(self.coins@[k]) by {
            let f = |p: Vec3| coin_ok(p);
            assert(f(self.coins@[k]));
        }
        let gen = extend_obstacles(&mut self.obstacles, &mut self.coins, far, cfg, rng);
        let kept = retain_obstacles(&self.obstacles, camera_z, cfg.margin);
        proof {
            lemma_filter_within(self.obstacles@, keep_obstacle(camera_z as int, cfg.margin as int), |o: Obstacle| placed_ok(o));
        }
        self.obstacles = kept;
        assert forall|k: int| 0 <= k < self.obstacles@.len() implies #[trigger] placed_ok(self.obstacles@[k]) by {
            let f = |o: Obstacle| placed_ok(o);
            assert(f(self.obstacles@[k]));
        }
        let ghost s1 = self@;
        assert(s1.walls == (s0.walls + gw@).filter(keep_wall(camera_z as int, cfg.margin as int)));
        assert(s1.obstacles == (s0.obstacles + gen@.0).filter(keep_obstacle(camera_z as int, cfg.margin as int)));
        assert(s1.coins == s0.coins.filter(keep_coin(camera_z as int)) + gen@.1);
        let ghost fd = far_depth(camera_z as int, *cfg);
        assert(fd == far as int);
        assert(walls_extend(s0.walls, gw@, fd, *cfg));
        assert(obstacles_extend(s0.obstacles, gen@.0, gen@.1, gen@.2, gen@.3, fd, *cfg));
        assert(exists|g: Seq<Wall>|
            walls_extend(s0.walls, g, fd, *cfg) && s1.walls == (s0.walls + g).filter(
                keep_wall(camera_z as int, cfg.margin as int),
            ));
        assert(exists|go: Seq<Obstacle>, gc: Seq<Vec3>, picks: Seq<int>, spots: Seq<int>|
            obstacles_extend(s0.obstacles, go, gc, picks, spots, fd, *cfg) && s1.obstacles == (
            s0.obstacles + go).filter(keep_obstacle(camera_z as int, cfg.margin as int))
                && s1.coins == s0.coins.filter(keep_coin(camera_z as int)) + gc);
    }
}

proof fn lemma_wall_chain_first(old: Seq<Wall>, gen: Seq<Wall>, far: int, c: ContentConfig)
    requires
        wall_chain(old, gen, far, c),
        gen.len() > 0,
    ensures
        gen[0].start == wall_frontier(old),
        old.len() == 0 || gen[0].start > far,
    decreases gen.len(),
{
    let rest = gen.drop_last();
    if rest.len() > 0 {
        lemma_wall_chain_first(old, rest, far, c);
        assert(rest[0] == gen[0]);
    } else {
        assert(old + rest == old);
    }
}

proof fn lemma_obstacle_chain_first(
    old: Seq<Obstacle>,
    gen: Seq<Obstacle>,
    coins: Seq<Vec3>,
    picks: Seq<int>,
    spots: Seq<int>,
    far: int,
    c: ContentConfig,
)
    requires
        obstacle_chain(old, gen, coins, picks, spots, far, c),
        gen.len() > 0,
    ensures
        old.len() == 0 || obstacle_frontier(old) > far,
    decreases gen.len(),
{
    let rest = gen.drop_last();
    if rest.len() > 0 {
        lemma_obstacle_chain_first(old, rest, coins.drop_last(), picks.drop_last(), spots.drop_last(), far, c);
    } else {
        assert(old + rest == old);
    }
}

proof fn lemma_obstacle_chain_descends(
    old: Seq<Obstacle>,
    gen: Seq<Obstacle>,
    coins: Seq<Vec3>,
    picks: Seq<int>,
    spots: Seq<int>,
    far: int,
    c: ContentConfig,
)
    requires
        obstacle_chain(old, gen, coins, picks, spots, far, c),
        1 <= c.gap.min,
    ensures
        coins.len() == gen.len(),
        obstacle_frontier(old + gen) <= obstacle_frontier(old),
        forall|k: int| 0 <= k < coins.len() ==> #[trigger] coins[k].z <= obstacle_frontier(old),
    decreases gen.len(),
{
    if gen.len() == 0 {
        assert(old + gen == old);
    } else {
        let rest = gen.drop_last();
        let cr = coins.drop_last();
        lemma_obstacle_chain_descends(old, rest, cr, picks.drop_last(), spots.drop_last(), far, c);
        assert(old + gen == (old + rest).push(gen.last()));
        assert forall|k: int| 0 <= k < coins.len() implies #[trigger] coins[k].z <= obstacle_frontier(old) by {
            if k < coins.len() - 1 {
                assert(coins[k] == cr[k]);
            }
        }
    }
}

proof fn lemma_filter_keeps_last<A>(s: Seq<A>, pred: spec_fn(A) -> bool)
    requires
        s.len() > 0,
        pred(s.last()),
    ensures
        s.filter(pred).len() > 0,
        s.filter(pred).last() == s.last(),
{
    reveal(Seq::filter);
}

proof fn lemma_filter_all<A>(s: Seq<A>, pred: spec_fn(A) -> bool)
    requires
        forall|k: int| 0 <= k < s.len() ==> #[trigger] pred(s[k]),
    ensures
        s.filter(pred) == s,
    decreases s.len(),
{
    reveal(Seq::filter);
    if s.len() > 0 {
        let d = s.drop_last();
        assert forall|k: int| 0 <= k < d.len() implies #[trigger] pred(d[k]) by {
            assert(d[k] == s[k]);
        }
        lemma_filter_all(d, pred);
        assert(pred(s[s.len() - 1]));
        assert(d.push(s.last()) == s);
    }
}

proof fn lemma_filter_holds<A>(s: Seq<A>, pred: spec_fn(A) -> bool)
    ensures
        forall|k: int| 0 <= k < s.filter(pred).len() ==> #[trigger] pred(s.filter(pred)[k]),
{
    assert forall|k: int| 0 <= k < s.filter(pred).len() implies #[trigger] pred(s.filter(pred)[k]) by {
        s.lemma_filter_pred(pred, k);
    }
}

proof fn lemma_walls_settle(w0: Seq<Wall>, gw1: Seq<Wall>, gw2: Seq<Wall>, camera_z: int, c: ContentConfig)
    requires
        0 <= c.far_clip,
        1 <= c.margin,
        walls_extend(w0, gw1, far_depth(camera_z, c), c),
        walls_extend((w0 + gw1).filter(keep_wall(camera_z, c.margin as int)), gw2, far_depth(camera_z, c), c),
    ensures
        ((w0 + gw1).filter(keep_wall(camera_z, c.margin as int)) + gw2).filter(
            keep_wall(camera_z, c.margin as int),
        ) == (w0 + gw1).filter(keep_wall(camera_z, c.margin as int)),
{
    let kw = keep_wall(camera_z, c.margin as int);
    let all_w = w0 + gw1;
    let s1 = all_w.filter(kw);
    lemma_filter_keeps_last(all_w, kw);
    lemma_filter_holds(all_w, kw);
    if gw2.len() > 0 {
        lemma_wall_chain_first(s1, gw2, far_depth(camera_z, c), c);
    }
    assert(s1 + gw2 == s1);
    lemma_filter_all(s1, kw);
}

proof fn lemma_obstacles_settle(
    o0: Seq<Obstacle>,
    go1: Seq<Obstacle>,
    gc1: Seq<Vec3>,
    p1: Seq<int>,
    q1: Seq<int>,
    go2: Seq<Obstacle>,
    gc2: Seq<Vec3>,
    p2: Seq<int>,
    q2: Seq<int>,
    camera_z: int,
    c: ContentConfig,
)
    requires
        0 <= c.far_clip,
        1 <= c.margin,
        obstacles_extend(o0, go1, gc1, p1, q1, far_depth(camera_z, c), c),
        obstacles_extend(
            (o0 + go1).filter(keep_obstacle(camera_z, c.margin as int)),
            go2,
            gc2,
            p2,
            q2,
            far_depth(camera_z, c),
            c,
        ),
    ensures
        go2.len() == 0,
        gc2.len() == 0,
        ((o0 + go1).filter(keep_obstacle(camera_z, c.margin as int)) + go2).filter(
            keep_obstacle(camera_z, c.margin as int),
        ) == (o0 + go1).filter(keep_obstacle(camera_z, c.margin as int)),
{
    let ko = keep_obstacle(camera_z, c.margin as int);
    let all_o = o0 + go1;
    let s1 = all_o.filter(ko);
    lemma_filter_keeps_last(all_o, ko);
    lemma_filter_holds(all_o, ko);
    if go2.len() > 0 {
        lemma_obstacle_chain_first(s1, go2, gc2, p2, q2, far_depth(camera_z, c), c);
    }
    assert(s1 + go2 == s1);
    lemma_filter_all(s1, ko);
}

proof fn lemma_coins_settle(
    o0: Seq<Obstacle>,
    go1: Seq<Obstacle>,
    gc1: Seq<Vec3>,
    p1: Seq<int>,
    q1: Seq<int>,
    c0: Seq<Vec3>,
    camera_z: int,
    c: ContentConfig,
)
    requires
        1 <= c.gap.min,
        obstacles_extend(o0, go1, gc1, p1, q1, far_depth(camera_z, c), c),
        obstacle_frontier(o0) < camera_z,
    ensures
        (c0.filter(keep_coin(camera_z)) + gc1).filter(keep_coin(camera_z)) == c0.filter(
            keep_coin(camera_z),
        ) + gc1,
{
    let kc = keep_coin(camera_z);
    lemma_obstacle_chain_descends(o0, go1, gc1, p1, q1, far_depth(camera_z, c), c);
    let kept_c = c0.filter(kc);
    lemma_filter_holds(c0, kc);
    let s1 = kept_c + gc1;
    assert forall|k: int| 0 <= k < s1.len() implies #[trigger] kc(s1[k]) by {
        if k < kept_c.len() {
            assert(s1[k] == kept_c[k]);
        } else {
            assert(s1[k] == gc1[k - kept_c.len()]);
        }
    }
    lemma_filter_all(s1, kc);
}

proof fn wall_witness(s0: ContentView, s1: ContentView, camera_z: int, c: ContentConfig) -> (g: Seq<Wall>)
    requires
        refreshed(s0, s1, camera_z, c),
    ensures
        walls_extend(s0.walls, g, far_depth(camera_z, c), c),
        s1.walls == (s0.walls + g).filter(keep_wall(camera_z, c.margin as int)),
{
    choose|g: Seq<Wall>|
        walls_extend(s0.walls, g, far_depth(camera_z, c), c) && s1.walls == (s0.walls + g).filter(
            keep_wall(camera_z, c.margin as int),
        )
}

proof fn obstacle_witness(s0: ContentView, s1: ContentView, camera_z: int, c: ContentConfig) -> (r: (
    Seq<Obstacle>,
    Seq<Vec3>,
    Seq<int>,
    Seq<int>,
))
    requires
        refreshed(s0, s1, camera_z, c),
    ensures
        obstacles_extend(s0.obstacles, r.0, r.1, r.2, r.3, far_depth(camera_z, c), c),
        s1.obstacles == (s0.obstacles + r.0).filter(keep_obstacle(camera_z, c.margin as int)),
        s1.coins == s0.coins.filter(keep_coin(camera_z)) + r.1,
{
    choose|go: Seq<Obstacle>, gc: Seq<Vec3>, picks: Seq<int>, spots: Seq<int>|
        obstacles_extend(s0.obstacles, go, gc, picks, spots, far_depth(camera_z, c), c)
            && s1.obstacles == (s0.obstacles + go).filter(keep_obstacle(camera_z, c.margin as int))
            && s1.coins == s0.coins.filter(keep_coin(camera_z)) + gc
}

proof fn lemma_config_basics(c: ContentConfig)
    requires
        config_ok(c),
    ensures
        0 <= c.far_clip,
        1 <= c.margin,
        1 <= c.gap.min,
{
    reveal(config_ok);
}

/// Refreshing twice for the same camera depth adds nothing and drops nothing
/// the second time, provided the furthest obstacle before the first step (or
/// depth `0` when there is none) lies below the camera.
pub proof fn lemma_refresh_idempotent(
    s0: ContentView,
    s1: ContentView,
    s2: ContentView,
    camera_z: int,
    c: ContentConfig,
)
    requires
        config_ok(c),
        refreshed(s0, s1, camera_z, c),
        refreshed(s1, s2, camera_z, c),
        obstacle_frontier(s0.obstacles) < camera_z,
    ensures
        s2 == s1,
{
    lemma_config_basics(c);
    let gw1 = wall_witness(s0, s1, camera_z, c);
    let gw2 = wall_witness(s1, s2, camera_z, c);
    let (go1, gc1, p1, q1) = obstacle_witness(s0, s1, camera_z, c);
    let (go2, gc2, p2, q2) = obstacle_witness(s1, s2, camera_z, c);
    lemma_walls_settle(s0.walls, gw1, gw2, camera_z, c);
    lemma_obstacles_settle(s0.obstacles, go1, gc1, p1, q1, go2, gc2, p2, q2, camera_z, c);
    lemma_coins_settle(s0.obstacles, go1, gc1, p1, q1, s0.coins, camera_z, c);
    assert(s1.coins + gc2 == s1.coins);
}

} // verus!
