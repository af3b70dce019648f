//! Hit testing against placed obstacles, and the rules that turn two
//! consecutive samples into a death or a bounce.
//!
//! An obstacle is a flat sprite placed by a linear map `m / den` from its local
//! frame, then moved to depth `z`. A query point casts a ray along the tube's
//! axis; the hit is where the ray meets the sprite's plane, and it counts when
//! the sprite's alpha mask is non-zero at that spot. The answer is the signed
//! distance along the axis from the query point to the plane.
use vstd::prelude::*;
use crate::arith::{abs, lemma_mul_abs_bound};
use crate::geom::{Vec3, COORD_LIMIT, vec3_ok};

verus! {

/// Largest magnitude of an entry of a placement matrix, and of its denominator.
pub const MATRIX_LIMIT: i64 = 0x10_0000;

/// Largest mask width or height.
pub const MASK_LIMIT: usize = 0x8000;

/// Linear placement of an obstacle: the local axes map to the columns
/// `ax / den`, `ay / den` and `az / den` of the world.
#[derive(Clone, Copy, Debug)]
pub struct Placement {
    pub ax: Vec3,
    pub ay: Vec3,
    pub az: Vec3,
    pub den: i64,
}

/// A placed obstacle: its depth, its placement, and which baked mask it shows.
#[derive(Clone, Copy, Debug)]
pub struct Obstacle {
    pub z: i64,
    pub placement: Placement,
    pub mask: usize,
}

/// Per-pixel alpha of a baked obstacle sprite, indexed by column then row.
pub struct AlphaMask {
    pub data: Vec<Vec<u8>>,
}

/// A signed distance `num / den` along the tube's axis; `den` is positive.
#[derive(Clone, Copy, Debug)]
pub struct SignedDist {
    pub num: i128,
    pub den: i128,
}

/// A placement within the matrix limits, with a positive denominator.
pub open spec fn placement_ok(p: Placement) -> bool {
    let ok = |v: Vec3|
        -MATRIX_LIMIT <= v.x <= MATRIX_LIMIT && -MATRIX_LIMIT <= v.y <= MATRIX_LIMIT
            && -MATRIX_LIMIT <= v.z <= MATRIX_LIMIT;
    &&& ok(p.ax)
    &&& ok(p.ay)
    &&& ok(p.az)
    &&& 0 < p.den <= MATRIX_LIMIT
}

/// An obstacle within bounds.
pub open spec fn obstacle_ok(o: Obstacle) -> bool {
    placement_ok(o.placement) && -COORD_LIMIT <= o.z <= COORD_LIMIT
}

/// A rectangular, non-empty mask within the size limits.
pub open spec fn mask_ok(m: Seq<Vec<u8>>) -> bool {
    &&& 1 <= m.len() <= MASK_LIMIT
    &&& 1 <= m[0]@.len() <= MASK_LIMIT
    &&& forall|x: int| 0 <= x < m.len() ==> #[trigger] m[x]@.len() == m[0]@.len()
}

/// Determinant of the placement's cross-section part, scaled by `den * den`.
pub open spec fn det_xy(p: Placement) -> int {
    p.ax.x * p.ay.y - p.ay.x * p.ax.y
}

/// Numerator over `det_xy` of the local `x` coordinate where the ray from `q` meets the plane.
pub open spec fn u_num(o: Obstacle, q: Vec3) -> int {
    let p = o.placement;
    p.den * (q.x * p.ay.y - p.ay.x * q.y)
}

/// Numerator over `det_xy` of the local `y` coordinate where the ray from `q` meets the plane.
pub open spec fn v_num(o: Obstacle, q: Vec3) -> int {
    let p = o.placement;
    p.den * (p.ax.x * q.y - q.x * p.ax.y)
}

/// Numerator over `det_xy` of the signed distance along the axis from `q` to the plane.
pub open spec fn t_num(o: Obstacle, q: Vec3) -> int {
    let p = o.placement;
    let qz = q.z - o.z;
    (q.x * p.ay.y - p.ay.x * q.y) * p.ax.z + (p.ax.x * q.y - q.x * p.ax.y) * p.ay.z - qz * det_xy(p)
}

/// Where the ray meets the plane, as `(u, v, t)` over a positive denominator `d`:
/// the local coordinates `u / d`, `v / d` and the signed distance `t / d`.
pub open spec fn local_hit(o: Obstacle, q: Vec3) -> (int, int, int, int) {
    let d = det_xy(o.placement);
    if d < 0 {
        (-u_num(o, q), -v_num(o, q), -t_num(o, q), -d)
    } else {
        (u_num(o, q), v_num(o, q), t_num(o, q), d)
    }
}

/// The ray meets the plane inside the sprite's square `[-1, 1] x [-1, 1]`.
pub open spec fn in_unit_square(o: Obstacle, q: Vec3) -> bool {
    let (u, v, t, d) = local_hit(o, q);
    d > 0 && -d <= u <= d && -d <= v <= d
}

/// Mask column of a local coordinate `c / d` in `[-1, 1]`, for `n` columns.
pub open spec fn pixel(c: int, d: int, n: int) -> int {
    (c + d) * n / (2 * d)
}

/// The hit of the ray from `q` along the axis: its signed distance when the ray
/// meets the plane inside the square at a pixel of non-zero alpha.
pub open spec fn hit(o: Obstacle, mask: Seq<Vec<u8>>, q: Vec3) -> Option<SignedDist> {
    let (u, v, t, d) = local_hit(o, q);
    if !in_unit_square(o, q) {
        None
    } else {
        let ix = pixel(u, d, mask.len() as int);
        let iy = pixel(v, d, mask[0]@.len() as int);
        if ix >= mask.len() || iy >= mask[0]@.len() {
            None
        } else if mask[ix]@[iy] == 0 {
            None
        } else {
            Some(SignedDist { num: t as i128, den: d as i128 })
        }
    }
}

/// A query point whose ray meets the obstacle's plane outside the sprite's
/// square never hits the obstacle.
pub proof fn lemma_outside_square_misses(o: Obstacle, mask: Seq<Vec<u8>>, q: Vec3)
    requires
        !in_unit_square(o, q),
    ensures
        hit(o, mask, q) is None,
{
}

impl Obstacle {
    /// The signed distance along the axis from `pos` to the obstacle's plane, if
    /// the ray from `pos` meets the sprite where its alpha is non-zero.
    pub fn hittest(&self, mask: &AlphaMask, pos: Vec3) -> (r: Option<SignedDist>)
        requires
            obstacle_ok(*self),
            mask_ok(mask.data@),
            vec3_ok(pos),
        ensures
            r == hit(*self, mask.data@, pos),
    {
        let p = self.placement;
        proof {
            lemma_mul_abs_bound(p.ax.x as int, p.ay.y as int, MATRIX_LIMIT as int, MATRIX_LIMIT as int);
            lemma_mul_abs_bound(p.ay.x as int, p.ax.y as int, MATRIX_LIMIT as int, MATRIX_LIMIT as int);
            lemma_mul_abs_bound(pos.x as int, p.ay.y as int, COORD_LIMIT as int, MATRIX_LIMIT as int);
            lemma_mul_abs_bound(p.ay.x as int, pos.y as int, MATRIX_LIMIT as int, COORD_LIMIT as int);
            lemma_mul_abs_bound(p.ax.x as int, pos.y as int, MATRIX_LIMIT as int, COORD_LIMIT as int);
            lemma_mul_abs_bound(pos.x as int, p.ax.y as int, COORD_LIMIT as int, MATRIX_LIMIT as int);
        }
        let det: i128 = p.ax.x as i128 * p.ay.y as i128 - p.ay.x as i128 * p.ax.y as i128;
        let nu: i128 = pos.x as i128 * p.ay.y as i128 - p.ay.x as i128 * pos.y as i128;
        let nv: i128 = p.ax.x as i128 * pos.y as i128 - pos.x as i128 * p.ax.y as i128;
        let qz: i128 = pos.z as i128 - self.z as i128;
        proof {
            lemma_mul_abs_bound(p.den as int, nu as int, MATRIX_LIMIT as int, 0x4000_0000_0000_0000);
            lemma_mul_abs_bound(p.den as int, nv as int, MATRIX_LIMIT as int, 0x4000_0000_0000_0000);
            lemma_mul_abs_bound(nu as int, p.ax.z as int, 0x4000_0000_0000_0000, MATRIX_LIMIT as int);
            lemma_mul_abs_bound(nv as int, p.ay.z as int, 0x4000_0000_0000_0000, MATRIX_LIMIT as int);
            lemma_mul_abs_bound(qz as int, det as int, 2 * COORD_LIMIT as int, 0x400_0000_0000);
        }
        let un0: i128 = p.den as i128 * nu;
        let vn0: i128 = p.den as i128 * nv;
        let tn0: i128 = nu * p.ax.z as i128 + nv * p.ay.z as i128 - qz * det;
        let (u, v, t, d) = if det < 0 {
            (-un0, -vn0, -tn0, -det)
        } else {
            (un0, vn0, tn0, det)
        };
        assert((u as int, v as int, t as int, d as int) == local_hit(*self, pos));
        if d == 0 || u < -d || u > d || v < -d || v > d {
            return None;
        }
        let w = mask.data.len();
        let h = mask.data[0].len();
        proof {
            lemma_mul_abs_bound(u + d, w as int, 0x40_0000_0000_0000_0000_0000, MASK_LIMIT as int);
            lemma_mul_abs_bound(v + d, h as int, 0x40_0000_0000_0000_0000_0000, MASK_LIMIT as int);
        }
        let ix = (u + d) * w as i128 / (2 * d);
        let iy = (v + d) * h as i128 / (2 * d);
        if ix >= w as i128 || iy >= h as i128 {
            return None;
        }
        proof {
            assert(0 <= (u + d) * w) by (nonlinear_arith)
                requires
                    u + d >= 0,
                    w >= 0,
            ;
            assert(0 <= (v + d) * h) by (nonlinear_arith)
                requires
                    v + d >= 0,
                    h >= 0,
            ;
        }
        assert(mask.data@[ix as int]@.len() == mask.data@[0]@.len());
        if mask.data[ix as usize][iy as usize] == 0 {
            return None;
        }
        Some(SignedDist { num: t, den: d })
    }
}

/// The plane lies between two samples, or one of them touches it.
pub open spec fn crossed(prev: SignedDist, new: SignedDist) -> bool {
    prev.num * new.num <= 0
}

/// Two samples at the player's center are fatal: they lie on both sides of the
/// plane, or the nearer of them is closer than `death_distance`.
pub open spec fn fatal(prev: SignedDist, new: SignedDist, death_distance: int) -> bool {
    ||| crossed(prev, new)
    ||| abs(new.num as int) < death_distance * new.den
    ||| abs(prev.num as int) < death_distance * prev.den
}

/// Bounds on a signed distance that every hit meets.
pub open spec fn dist_ok(s: SignedDist) -> bool {
    &&& 0 < s.den <= 0x400_0000_0000
    &&& -0x40_0000_0000_0000_0000_0000 <= s.num <= 0x40_0000_0000_0000_0000_0000
}

proof fn lemma_hit_bounded(o: Obstacle, mask: Seq<Vec<u8>>, q: Vec3)
    requires
        obstacle_ok(o),
        vec3_ok(q),
    ensures
        hit(o, mask, q) matches Some(s) ==> dist_ok(s),
{
    let p = o.placement;
    lemma_mul_abs_bound(p.ax.x as int, p.ay.y as int, MATRIX_LIMIT as int, MATRIX_LIMIT as int);
    lemma_mul_abs_bound(p.ay.x as int, p.ax.y as int, MATRIX_LIMIT as int, MATRIX_LIMIT as int);
    lemma_mul_abs_bound(q.x as int, p.ay.y as int, COORD_LIMIT as int, MATRIX_LIMIT as int);
    lemma_mul_abs_bound(p.ay.x as int, q.y as int, MATRIX_LIMIT as int, COORD_LIMIT as int);
    lemma_mul_abs_bound(p.ax.x as int, q.y as int, MATRIX_LIMIT as int, COORD_LIMIT as int);
    lemma_mul_abs_bound(q.x as int, p.ax.y as int, COORD_LIMIT as int, MATRIX_LIMIT as int);
    let nu = q.x * p.ay.y - p.ay.x * q.y;
    let nv = p.ax.x * q.y - q.x * p.ax.y;
    lemma_mul_abs_bound(nu, p.ax.z as int, 0x4000_0000_0000_0000, MATRIX_LIMIT as int);
    lemma_mul_abs_bound(nv, p.ay.z as int, 0x4000_0000_0000_0000, MATRIX_LIMIT as int);
    lemma_mul_abs_bound(q.z - o.z, det_xy(p), 2 * COORD_LIMIT as int, 0x400_0000_0000);
}

/// Whether two samples at the player's center are fatal.
pub fn is_fatal(prev: SignedDist, new: SignedDist, death_distance: i64) -> (r: bool)
    requires
        dist_ok(prev),
        dist_ok(new),
        0 <= death_distance <= COORD_LIMIT,
    ensures
        r == fatal(prev, new, death_distance as int),
{
    let pa: i128 = if prev.num < 0 { -prev.num } else { prev.num };
    let na: i128 = if new.num < 0 { -new.num } else { new.num };
    let sp: i128 = if prev.num < 0 { -1 } else if prev.num > 0 { 1 } else { 0 };
    let sn: i128 = if new.num < 0 { -1 } else if new.num > 0 { 1 } else { 0 };
    proof {
        assert((prev.num * new.num <= 0) == (sp * sn <= 0)) by (nonlinear_arith)
            requires
                sp == (if prev.num < 0 { -1int } else if prev.num > 0 { 1int } else { 0int }),
                sn == (if new.num < 0 { -1int } else if new.num > 0 { 1int } else { 0int }),
        ;
        lemma_mul_abs_bound(death_distance as int, new.den as int, COORD_LIMIT as int, 0x400_0000_0000);
        lemma_mul_abs_bound(death_distance as int, prev.den as int, COORD_LIMIT as int, 0x400_0000_0000);
    }
    sp * sn <= 0 || na < death_distance as i128 * new.den || pa < death_distance as i128 * prev.den
}

/// Masks within bounds, and obstacles within bounds that each name one of the masks.
pub open spec fn scene_ok(obs: Seq<Obstacle>, masks: Seq<AlphaMask>) -> bool {
    &&& forall|i: int| 0 <= i < obs.len() ==> #[trigger] obstacle_ok(obs[i]) && obs[i].mask < masks.len()
    &&& forall|k: int| 0 <= k < masks.len() ==> mask_ok(#[trigger] masks[k].data@)
}

/// The hit of the ray from `q` against obstacle `i` of the scene.
pub open spec fn scene_hit(obs: Seq<Obstacle>, masks: Seq<AlphaMask>, i: int, q: Vec3) -> Option<
    SignedDist,
> {
    hit(obs[i], masks[obs[i].mask as int].data@, q)
}

/// Obstacle `i` hits both samples, and the samples are fatal.
pub open spec fn fatal_at(
    obs: Seq<Obstacle>,
    masks: Seq<AlphaMask>,
    i: int,
    prev: Vec3,
    new: Vec3,
    death_distance: int,
) -> bool {
    match (scene_hit(obs, masks, i, prev), scene_hit(obs, masks, i, new)) {
        (Some(a), Some(b)) => fatal(a, b, death_distance),
        _ => false,
    }
}

/// Obstacle `i` hits both samples, and they lie on both sides of its plane.
pub open spec fn crossed_at(obs: Seq<Obstacle>, masks: Seq<AlphaMask>, i: int, prev: Vec3, new: Vec3) -> bool {
    match (scene_hit(obs, masks, i, prev), scene_hit(obs, masks, i, new)) {
        (Some(a), Some(b)) => crossed(a, b),
        _ => false,
    }
}

/// Some obstacle makes the move from `prev` to `new` of the player's center fatal.
pub open spec fn dies(obs: Seq<Obstacle>, masks: Seq<AlphaMask>, prev: Vec3, new: Vec3, death_distance: int) -> bool {
    exists|i: int| 0 <= i < obs.len() && fatal_at(obs, masks, i, prev, new, death_distance)
}

/// Some obstacle is passed through by the move from `prev` to `new`.
pub open spec fn touches(obs: Seq<Obstacle>, masks: Seq<AlphaMask>, prev: Vec3, new: Vec3) -> bool {
    exists|i: int| 0 <= i < obs.len() && crossed_at(obs, masks, i, prev, new)
}

/// Whether the move of the player's center from `prev` to `new` is fatal.
pub fn player_dies(
    obs: &Vec<Obstacle>,
    masks: &Vec<AlphaMask>,
    prev: Vec3,
    new: Vec3,
    death_distance: i64,
) -> (r: bool)
    requires
        scene_ok(obs@, masks@),
        vec3_ok(prev),
        vec3_ok(new),
        0 <= death_distance <= COORD_LIMIT,
    ensures
        r == dies(obs@, masks@, prev, new, death_distance as int),
{
    let mut i: usize = 0;
    while i < obs.len()
        invariant
            scene_ok(obs@, masks@),
            vec3_ok(prev),
            vec3_ok(new),
            0 <= death_distance <= COORD_LIMIT,
            i <= obs@.len(),
            forall|k: int| 0 <= k < i ==> !fatal_at(obs@, masks@, k, prev, new, death_distance as int),
        decreases obs@.len() - i,
    {
        let o = &obs[i];
        assert(obstacle_ok(obs@[i as int]));
        let mask = &masks[o.mask];
        assert(mask_ok(masks@[o.mask as int].data@));
        proof {
            lemma_hit_bounded(*o, mask.data@, prev);
            lemma_hit_bounded(*o, mask.data@, new);
        }
        if let Some(a) = o.hittest(mask, prev) {
            if let Some(b) = o.hittest(mask, new) {
                if is_fatal(a, b, death_distance) {
                    assert(fatal_at(obs@, masks@, i as int, prev, new, death_distance as int));
                    return true;
                }
            }
        }
        i = i + 1;
    }
    false
}

/// Whether some obstacle is passed through by the move from `prev` to `new`.
pub fn passes_through(obs: &Vec<Obstacle>, masks: &Vec<AlphaMask>, prev: Vec3, new: Vec3) -> (r: bool)
    requires
        scene_ok(obs@, masks@),
        vec3_ok(prev),
        vec3_ok(new),
    ensures
        r == touches(obs@, masks@, prev, new),
{
    let mut i: usize = 0;
    while i < obs.len()
        invariant
            scene_ok(obs@, masks@),
            vec3_ok(prev),
            vec3_ok(new),
            i <= obs@.len(),
            forall|k: int| 0 <= k < i ==> !crossed_at(obs@, masks@, k, prev, new),
        decreases obs@.len() - i,
    {
        let o = &obs[i];
        assert(obstacle_ok(obs@[i as int]));
        let mask = &masks[o.mask];
        assert(mask_ok(masks@[o.mask as int].data@));
        proof {
            lemma_hit_bounded(*o, mask.data@, prev);
            lemma_hit_bounded(*o, mask.data@, new);
        }
        if let Some(a) = o.hittest(mask, prev) {
            if let Some(b) = o.hittest(mask, new) {
                let sa: i128 = if a.num < 0 { -1 } else if a.num > 0 { 1 } else { 0 };
                let sb: i128 = if b.num < 0 { -1 } else if b.num > 0 { 1 } else { 0 };
                proof {
                    assert((a.num * b.num <= 0) == (sa * sb <= 0)) by (nonlinear_arith)
                        requires
                            sa == (if a.num < 0 { -1int } else if a.num > 0 { 1int } else { 0int }),
                            sb == (if b.num < 0 { -1int } else if b.num > 0 { 1int } else { 0int }),
                    ;
                }
                if sa * sb <= 0 {
                    assert(crossed_at(obs@, masks@, i as int, prev, new));
                    return true;
                }
            }
        }
        i = i + 1;
    }
    false
}

} // verus!
