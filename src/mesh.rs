//! Thick sprite meshes: a raster's alpha channel, averaged over square cells,
//! is contoured by marching squares; silhouette edges are extruded into side
//! walls, and each vertex on a silhouette carries that edge's outward normal.
use vstd::prelude::*;
use crate::arith::lemma_mul_abs_bound;
use crate::march::{
    Frac, RatPoint, MarchVertex, Face, VALUE_LIMIT, ISO_NUM_LIMIT, POS_LIMIT,
    POS_DEN_LIMIT, grid_view, point_ok, vertex_ok, ISO_DEN_LIMIT, grid_ok, iso_ok, face_ok,
    marching_faces, marching_triangles,
};

verus! {

/// Largest cell size. A cell's sample grows as `255 * cell_size^4` on the
/// grid's common scale; this bound keeps samples, crossing parameters and
/// rational vertex coordinates within 64-bit integers.
pub const CELL_LIMIT: usize = 16;

/// Largest raster width or height.
pub const RASTER_LIMIT: usize = 0x8000;

/// Full alpha.
pub const ALPHA_MAX: i64 = 255;

/// Mesh extraction settings.
#[derive(Clone, Copy, Debug)]
pub struct Options {
    /// Side of the square of pixels averaged into one grid sample.
    pub cell_size: usize,
    /// Occupancy threshold, a fraction of full alpha.
    pub iso: Frac,
    /// How far, in pixels, silhouette vertices look outward for their texture coordinates.
    pub normal_uv_offset: Frac,
}

impl Default for Options {
    fn default() -> (r: Options)
        ensures
            r.cell_size == 10,
            r.iso.num == 1 && r.iso.den == 2,
            r.normal_uv_offset.num == 2 && r.normal_uv_offset.den == 1,
    {
        Options {
            cell_size: 10,
            iso: Frac { num: 1, den: 2 },
            normal_uv_offset: Frac { num: 2, den: 1 },
        }
    }
}

/// A rectangular raster of alpha values, indexed by column then row.
pub open spec fn raster_ok(r: Seq<Vec<u8>>) -> bool {
    &&& 1 <= r.len() <= RASTER_LIMIT
    &&& 1 <= r[0]@.len() <= RASTER_LIMIT
    &&& forall|x: int| 0 <= x < r.len() ==> #[trigger] r[x]@.len() == r[0]@.len()
}

/// Settings that extraction accepts: a cell size within limits and an iso value in `[0, 1]`.
pub open spec fn options_ok(o: Options) -> bool {
    &&& 1 <= o.cell_size <= CELL_LIMIT
    &&& 0 < o.iso.den <= ISO_DEN_LIMIT
    &&& 0 <= o.iso.num <= o.iso.den
}

/// Sum of the alpha values of column `x`, rows `y0 .. y0 + n`.
pub open spec fn col_sum(r: Seq<Vec<u8>>, x: int, y0: int, n: nat) -> int
    decreases n,
{
    if n == 0 {
        0
    } else {
        col_sum(r, x, y0, (n - 1) as nat) + r[x]@[y0 + n - 1] as int
    }
}

/// Sum of the alpha values of columns `x0 .. x0 + nx`, rows `y0 .. y0 + ny`.
pub open spec fn block_sum(r: Seq<Vec<u8>>, x0: int, nx: nat, y0: int, ny: nat) -> int
    decreases nx,
{
    if nx == 0 {
        0
    } else {
        block_sum(r, x0, (nx - 1) as nat, y0, ny) + col_sum(r, x0 + nx - 1, y0, ny)
    }
}

/// Number of cells needed to cover `len` pixels.
pub open spec fn cells_for(len: int, cs: int) -> int {
    (len + cs - 1) / cs
}

/// Pixels of cell `c` along an axis of `len` pixels: the last cell may be short.
pub open spec fn span(len: int, cs: int, c: int) -> int {
    if len - c * cs < cs {
        len - c * cs
    } else {
        cs
    }
}

/// Pixels of the last cell along an axis.
pub open spec fn last_span(len: int, cs: int) -> int {
    span(len, cs, cells_for(len, cs) - 1)
}

/// Common scale of the grid: every cell's pixel count divides it.
pub open spec fn grid_scale(r: Seq<Vec<u8>>, cs: int) -> int {
    cs * cs * last_span(r.len() as int, cs) * last_span(r[0]@.len() as int, cs)
}

/// Factor taking a cell's span along an axis to `cs * last_span`.
pub open spec fn span_factor(len: int, cs: int, c: int) -> int {
    if span(len, cs, c) == cs {
        last_span(len, cs)
    } else {
        cs
    }
}

/// The sample of cell `(cx, cy)`: its alpha sum scaled so that
/// `sample / (255 * grid_scale)` is the mean alpha of its pixels as a fraction of full alpha.
pub open spec fn cell_sample(r: Seq<Vec<u8>>, cs: int, cx: int, cy: int) -> int {
    let w = r.len() as int;
    let h = r[0]@.len() as int;
    block_sum(r, cx * cs, span(w, cs, cx) as nat, cy * cs, span(h, cs, cy) as nat) * span_factor(
        w,
        cs,
        cx,
    ) * span_factor(h, cs, cy)
}

/// The downsampled grid of `r`: one sample per cell, columns first.
pub open spec fn cell_grid(r: Seq<Vec<u8>>, cs: int) -> Seq<Seq<i64>> {
    Seq::new(
        cells_for(r.len() as int, cs) as nat,
        |cx: int|
            Seq::new(
                cells_for(r[0]@.len() as int, cs) as nat,
                |cy: int| cell_sample(r, cs, cx, cy) as i64,
            ),
    )
}

proof fn lemma_cells(len: int, cs: int)
    requires
        1 <= len,
        1 <= cs,
    ensures
        1 <= cells_for(len, cs) <= len,
        (cells_for(len, cs) - 1) * cs < len <= cells_for(len, cs) * cs,
        1 <= last_span(len, cs) <= cs,
        forall|c: int| 0 <= c < cells_for(len, cs) ==> 1 <= #[trigger] span(len, cs, c) <= cs,
        forall|c: int| 0 <= c < cells_for(len, cs) ==> c * cs + #[trigger] span(len, cs, c) <= len,
        forall|c: int|
            0 <= c < cells_for(len, cs) ==> #[trigger] span(len, cs, c) * span_factor(len, cs, c)
                == cs * last_span(len, cs),
{
    let x = len + cs - 1;
    let n = x / cs;
    vstd::arithmetic::div_mod::lemma_fundamental_div_mod(x, cs);
    vstd::arithmetic::div_mod::lemma_mod_pos_bound(x, cs);
    assert(cs * n + x % cs == x);
    assert(1 <= n) by (nonlinear_arith)
        requires
            cs * n + x % cs == x,
            x % cs < cs,
            x >= cs,
    ;
    assert(n <= len) by (nonlinear_arith)
        requires
            cs * n + x % cs == x,
            x % cs >= 0,
            x == len + cs - 1,
            cs >= 1,
            len >= 1,
    ;
    assert((n - 1) * cs < len <= n * cs) by (nonlinear_arith)
        requires
            cs * n + x % cs == x,
            0 <= x % cs < cs,
            x == len + cs - 1,
    ;
    assert forall|c: int| 0 <= c < n implies c * cs + #[trigger] span(len, cs, c) <= len && 1
        <= span(len, cs, c) <= cs && span(len, cs, c) * span_factor(len, cs, c) == cs
        * last_span(len, cs) by {
        assert(c * cs <= (n - 1) * cs) by (nonlinear_arith)
            requires
                c <= n - 1,
                cs >= 1,
        ;
        if c < n - 1 {
            assert(c * cs + cs <= (n - 1) * cs) by (nonlinear_arith)
                requires
                    c + 1 <= n - 1,
                    cs >= 1,
            ;
        }
        let sp = span(len, cs, c);
        let ls = last_span(len, cs);
        if sp != cs {
            assert(c == n - 1);
            assert(sp * cs == cs * ls) by (nonlinear_arith)
                requires
                    sp == ls,
            ;
        } else {
            assert(sp * ls == cs * ls);
        }
    }
}

proof fn lemma_col_sum_bound(r: Seq<Vec<u8>>, x: int, y0: int, n: nat)
    ensures
        0 <= col_sum(r, x, y0, n) <= ALPHA_MAX * n,
    decreases n,
{
    if n > 0 {
        lemma_col_sum_bound(r, x, y0, (n - 1) as nat);
    }
}

proof fn lemma_block_sum_bound(r: Seq<Vec<u8>>, x0: int, nx: nat, y0: int, ny: nat)
    ensures
        0 <= block_sum(r, x0, nx, y0, ny) <= ALPHA_MAX * nx * ny,
    decreases nx,
{
    if nx > 0 {
        lemma_block_sum_bound(r, x0, (nx - 1) as nat, y0, ny);
        lemma_col_sum_bound(r, x0 + nx - 1, y0, ny);
        assert(ALPHA_MAX * (nx - 1) * ny + ALPHA_MAX * ny == ALPHA_MAX * nx * ny)
            by (nonlinear_arith);
    } else {
        assert(ALPHA_MAX * nx * ny == 0) by (nonlinear_arith)
            requires
                nx == 0,
        ;
    }
}

fn column_sum(r: &Vec<Vec<u8>>, x: usize, y0: usize, n: usize) -> (s: i64)
    requires
        raster_ok(r@),
        x < r@.len(),
        y0 + n <= r@[0]@.len(),
    ensures
        s == col_sum(r@, x as int, y0 as int, n as nat),
{
    let mut s: i64 = 0;
    let mut i: usize = 0;
    while i < n
        invariant
            raster_ok(r@),
            x < r@.len(),
            y0 + n <= r@[0]@.len(),
            i <= n,
            s == col_sum(r@, x as int, y0 as int, i as nat),
        decreases n - i,
    {
        proof {
            lemma_col_sum_bound(r@, x as int, y0 as int, i as nat);
        }
        assert(r@[x as int]@.len() == r@[0]@.len());
        s = s + r[x][y0 + i] as i64;
        i = i + 1;
    }
    s
}

fn cell_block_sum(r: &Vec<Vec<u8>>, x0: usize, nx: usize, y0: usize, ny: usize) -> (s: i64)
    requires
        raster_ok(r@),
        x0 + nx <= r@.len(),
        y0 + ny <= r@[0]@.len(),
    ensures
        s == block_sum(r@, x0 as int, nx as nat, y0 as int, ny as nat),
{
    let mut s: i64 = 0;
    let mut i: usize = 0;
    while i < nx
        invariant
            raster_ok(r@),
            x0 + nx <= r@.len(),
            y0 + ny <= r@[0]@.len(),
            i <= nx,
            s == block_sum(r@, x0 as int, i as nat, y0 as int, ny as nat),
        decreases nx - i,
    {
        proof {
            lemma_block_sum_bound(r@, x0 as int, i as nat, y0 as int, ny as nat);
            lemma_col_sum_bound(r@, (x0 + i) as int, y0 as int, ny as nat);
            assert(ALPHA_MAX * i * ny <= ALPHA_MAX * 0x4000_0000) by (nonlinear_arith)
                requires
                    i <= RASTER_LIMIT,
                    ny <= RASTER_LIMIT,
            ;
            assert(ALPHA_MAX * ny <= ALPHA_MAX * 0x4000_0000);
        }
        let c = column_sum(r, x0 + i, y0, ny);
        s = s + c;
        i = i + 1;
    }
    s
}

fn span_exec(len: usize, cs: usize, c: usize) -> (s: usize)
    requires
        1 <= len <= RASTER_LIMIT,
        1 <= cs <= CELL_LIMIT,
        c < cells_for(len as int, cs as int),
    ensures
        s == span(len as int, cs as int, c as int),
{
    proof {
        lemma_cells(len as int, cs as int);
        assert(c * cs + span(len as int, cs as int, c as int) <= len);
    }
    if len - c * cs < cs {
        len - c * cs
    } else {
        cs
    }
}

/// Averages the raster over square cells of `cs` pixels; a cell at the far edge
/// covers fewer pixels and is averaged over the pixels it covers.
pub fn downsample(r: &Vec<Vec<u8>>, cs: usize) -> (g: Vec<Vec<i64>>)
    requires
        raster_ok(r@),
        1 <= cs <= CELL_LIMIT,
    ensures
        grid_view(g@) == cell_grid(r@, cs as int),
        grid_ok(grid_view(g@)),
{
    let w = r.len();
    let h = r[0].len();
    proof {
        lemma_cells(w as int, cs as int);
        lemma_cells(h as int, cs as int);
    }
    let cw = (w + cs - 1) / cs;
    let ch = (h + cs - 1) / cs;
    let lw = span_exec(w, cs, cw - 1);
    let lh = span_exec(h, cs, ch - 1);
    let mut g: Vec<Vec<i64>> = Vec::new();
    let mut cx: usize = 0;
    while cx < cw
        invariant
            raster_ok(r@),
            1 <= cs <= CELL_LIMIT,
            w == r@.len(),
            h == r@[0]@.len(),
            cw == cells_for(w as int, cs as int),
            ch == cells_for(h as int, cs as int),
            1 <= cw <= w,
            1 <= ch <= h,
            lw == last_span(w as int, cs as int),
            lh == last_span(h as int, cs as int),
            1 <= lw <= cs,
            1 <= lh <= cs,
            cx <= cw,
            g@.len() == cx,
            forall|i: int| 0 <= i < cx ==> #[trigger] g@[i]@.len() == ch,
            forall|i: int, j: int|
                0 <= i < cx && 0 <= j < ch ==> #[trigger] g@[i]@[j] == cell_sample(
                    r@,
                    cs as int,
                    i,
                    j,
                ),
            forall|i: int, j: int|
                0 <= i < cx && 0 <= j < ch ==> 0 <= #[trigger] g@[i]@[j] <= ALPHA_MAX * 0x1_0000,
        decreases cw - cx,
    {
        proof {
            lemma_cells(w as int, cs as int);
        }
        let sx = span_exec(w, cs, cx);
        let fx = if sx == cs {
            lw
        } else {
            cs
        };
        let mut col: Vec<i64> = Vec::new();
        let mut cy: usize = 0;
        while cy < ch
            invariant
                raster_ok(r@),
                1 <= cs <= CELL_LIMIT,
                w == r@.len(),
                h == r@[0]@.len(),
                cw == cells_for(w as int, cs as int),
                ch == cells_for(h as int, cs as int),
                1 <= ch <= h,
                lh == last_span(h as int, cs as int),
                1 <= lh <= cs,
                cx < cw,
                sx == span(w as int, cs as int, cx as int),
                cx * cs + sx <= w,
                1 <= sx <= cs,
                fx == span_factor(w as int, cs as int, cx as int),
                1 <= fx <= cs,
                cy <= ch,
                col@.len() == cy,
                forall|j: int| 0 <= j < cy ==> #[trigger] col@[j] == cell_sample(r@, cs as int, cx as int, j),
                forall|j: int| 0 <= j < cy ==> 0 <= #[trigger] col@[j] <= ALPHA_MAX * 0x1_0000,
            decreases ch - cy,
        {
            let sy = span_exec(h, cs, cy);
            let fy = if sy == cs {
                lh
            } else {
                cs
            };
            proof {
                lemma_cells(h as int, cs as int);
                assert(cy * cs + sy <= h);
                lemma_block_sum_bound(r@, (cx * cs) as int, sx as nat, (cy * cs) as int, sy as nat);
            }
            let b = cell_block_sum(r, cx * cs, sx, cy * cs, sy);
            proof {
                assert(ALPHA_MAX * sx * sy <= ALPHA_MAX * 256) by (nonlinear_arith)
                    requires
                        1 <= sx <= 16,
                        1 <= sy <= 16,
                ;
                assert(b * fx * fy <= ALPHA_MAX * 0x1_0000) by (nonlinear_arith)
                    requires
                        0 <= b <= ALPHA_MAX * 256,
                        1 <= fx <= 16,
                        1 <= fy <= 16,
                ;
                assert(0 <= b * fx <= ALPHA_MAX * 0x1_0000) by (nonlinear_arith)
                    requires
                        0 <= b <= ALPHA_MAX * 256,
                        1 <= fx <= 16,
                ;
                assert(0 <= b * fx * fy) by (nonlinear_arith)
                    requires
                        0 <= b,
                        1 <= fx,
                        1 <= fy,
                ;
            }
            col.push(b * fx as i64 * fy as i64);
            cy = cy + 1;
        }
        g.push(col);
        cx = cx + 1;
    }
    assert(grid_view(g@) =~= cell_grid(r@, cs as int)) by {
        assert forall|i: int| 0 <= i < cw implies grid_view(g@)[i] =~= #[trigger] cell_grid(
            r@,
            cs as int,
        )[i] by {
            assert(g@[i]@.len() == ch);
        }
    }
    assert(grid_ok(grid_view(g@))) by {
        assert(g@[0]@.len() == ch);
        assert forall|i: int, j: int|
            0 <= i < grid_view(g@).len() && 0 <= j < grid_view(g@)[0].len() implies -VALUE_LIMIT
            <= #[trigger] grid_view(g@)[i][j] <= VALUE_LIMIT by {
            assert(g@[i]@.len() == ch);
        }
    }
    g
}

/// Each cell's sample, over the common denominator `255 * grid_scale`, is the
/// mean alpha of the pixels the cell covers, as a fraction of full alpha.
pub proof fn lemma_sample_is_mean(r: Seq<Vec<u8>>, cs: int, cx: int, cy: int)
    requires
        raster_ok(r),
        1 <= cs <= CELL_LIMIT,
        0 <= cx < cells_for(r.len() as int, cs),
        0 <= cy < cells_for(r[0]@.len() as int, cs),
    ensures
        cell_sample(r, cs, cx, cy) * (span(r.len() as int, cs, cx) * span(r[0]@.len() as int, cs, cy))
            == block_sum(
            r,
            cx * cs,
            span(r.len() as int, cs, cx) as nat,
            cy * cs,
            span(r[0]@.len() as int, cs, cy) as nat,
        ) * grid_scale(r, cs),
{
    let w = r.len() as int;
    let h = r[0]@.len() as int;
    lemma_cells(w, cs);
    lemma_cells(h, cs);
    let sx = span(w, cs, cx);
    let sy = span(h, cs, cy);
    let fx = span_factor(w, cs, cx);
    let fy = span_factor(h, cs, cy);
    let b = block_sum(r, cx * cs, sx as nat, cy * cs, sy as nat);
    assert(sx * fx == cs * last_span(w, cs));
    assert(sy * fy == cs * last_span(h, cs));
    assert(b * fx * fy * (sx * sy) == b * ((sx * fx) * (sy * fy))) by (nonlinear_arith);
    assert(b * ((cs * last_span(w, cs)) * (cs * last_span(h, cs))) == b * (cs * cs * last_span(
        w,
        cs,
    ) * last_span(h, cs))) by (nonlinear_arith);
}

/// The iso value of `o` on the grid's scale.
pub open spec fn grid_iso(r: Seq<Vec<u8>>, o: Options) -> Frac {
    Frac { num: (o.iso.num * ALPHA_MAX * grid_scale(r, o.cell_size as int)) as i64, den: o.iso.den }
}

/// An in-plane direction, perpendicular to a silhouette edge.
#[derive(Clone, Copy, Debug)]
pub struct EdgeNormal {
    pub x: i128,
    pub y: i128,
}

/// A vertex of the generated mesh: its grid position, its depth (`1` or `-1`),
/// and the normal of a silhouette edge through it, if any.
#[derive(Clone, Copy, Debug)]
pub struct MeshVertex {
    pub pos: RatPoint,
    pub z: i64,
    pub normal: Option<EdgeNormal>,
}

/// The vertex's value equals the iso value.
pub open spec fn on_iso(v: MarchVertex, iso: Frac) -> bool {
    v.value.num * iso.den == iso.num * v.value.den
}

/// An edge both of whose ends lie on the iso boundary.
pub open spec fn silhouette(a: MarchVertex, b: MarchVertex, iso: Frac) -> bool {
    on_iso(a, iso) && on_iso(b, iso)
}

/// The edge direction `b - a` turned a quarter turn counterclockwise, scaled
/// by the positive factor `a.den * b.den`.
pub open spec fn edge_normal(a: RatPoint, b: RatPoint) -> EdgeNormal {
    EdgeNormal {
        x: (-(b.y * a.den - a.y * b.den)) as i128,
        y: (b.x * a.den - a.x * b.den) as i128,
    }
}

/// The two points are equal as rational points.
pub open spec fn same_point(p: RatPoint, q: RatPoint) -> bool {
    p.x * q.den == q.x * p.den && p.y * q.den == q.y * p.den
}

/// The three edges of a face in cyclic order.
pub open spec fn face_edges(f: Face) -> Seq<(MarchVertex, MarchVertex)> {
    seq![(f.a, f.b), (f.b, f.c), (f.c, f.a)]
}

/// Both ends of a silhouette edge, each with the edge's normal.
pub open spec fn edge_entries(a: MarchVertex, b: MarchVertex, iso: Frac) -> Seq<(RatPoint, EdgeNormal)> {
    if silhouette(a, b, iso) {
        seq![(a.pos, edge_normal(a.pos, b.pos)), (b.pos, edge_normal(a.pos, b.pos))]
    } else {
        seq![]
    }
}

/// The normal entries of one face.
pub open spec fn face_entries(f: Face, iso: Frac) -> Seq<(RatPoint, EdgeNormal)> {
    edge_entries(f.a, f.b, iso) + edge_entries(f.b, f.c, iso) + edge_entries(f.c, f.a, iso)
}

/// The normal entries of the first `n` faces, in order.
pub open spec fn normal_table(faces: Seq<Face>, iso: Frac, n: nat) -> Seq<(RatPoint, EdgeNormal)>
    decreases n,
{
    if n == 0 || n > faces.len() {
        seq![]
    } else {
        normal_table(faces, iso, (n - 1) as nat) + face_entries(faces[n - 1], iso)
    }
}

/// The normal of the last entry at point `p`: later edges win.
pub open spec fn lookup(t: Seq<(RatPoint, EdgeNormal)>, p: RatPoint) -> Option<EdgeNormal>
    decreases t.len(),
{
    if t.len() == 0 {
        None
    } else if same_point(t.last().0, p) {
        Some(t.last().1)
    } else {
        lookup(t.drop_last(), p)
    }
}

/// The front cap: every face vertex at depth `1`, for the first `n` faces.
pub open spec fn front(faces: Seq<Face>, n: nat) -> Seq<(MarchVertex, i64)>
    decreases n,
{
    if n == 0 || n > faces.len() {
        seq![]
    } else {
        front(faces, (n - 1) as nat) + seq![
            (faces[n - 1].a, 1i64),
            (faces[n - 1].b, 1i64),
            (faces[n - 1].c, 1i64),
        ]
    }
}

/// The back cap: every face again at depth `-1`, its winding reversed so that
/// it faces away, for the first `n` faces.
pub open spec fn back(faces: Seq<Face>, n: nat) -> Seq<(MarchVertex, i64)>
    decreases n,
{
    if n == 0 || n > faces.len() {
        seq![]
    } else {
        back(faces, (n - 1) as nat) + seq![
            (faces[n - 1].a, -1i64),
            (faces[n - 1].c, -1i64),
            (faces[n - 1].b, -1i64),
        ]
    }
}

/// Each front-cap triangle has a back-cap partner: the same three points at
/// depth `-1`, in reversed winding.
pub proof fn lemma_back_cap_mirrors_front(faces: Seq<Face>, n: nat)
    requires
        n <= faces.len(),
    ensures
        front(faces, n).len() == 3 * n,
        back(faces, n).len() == 3 * n,
        forall|k: int|
            0 <= k < n ==> {
                &&& #[trigger] back(faces, n)[3 * k] == (front(faces, n)[3 * k].0, -1i64)
                &&& back(faces, n)[3 * k + 1] == (front(faces, n)[3 * k + 2].0, -1i64)
                &&& back(faces, n)[3 * k + 2] == (front(faces, n)[3 * k + 1].0, -1i64)
                &&& front(faces, n)[3 * k].1 == 1 && front(faces, n)[3 * k + 1].1 == 1
                    && front(faces, n)[3 * k + 2].1 == 1
            },
    decreases n,
{
    if n > 0 {
        lemma_back_cap_mirrors_front(faces, (n - 1) as nat);
        let f0 = front(faces, (n - 1) as nat);
        let b0 = back(faces, (n - 1) as nat);
        assert forall|k: int| 0 <= k < n implies {
            &&& #[trigger] back(faces, n)[3 * k] == (front(faces, n)[3 * k].0, -1i64)
            &&& back(faces, n)[3 * k + 1] == (front(faces, n)[3 * k + 2].0, -1i64)
            &&& back(faces, n)[3 * k + 2] == (front(faces, n)[3 * k + 1].0, -1i64)
            &&& front(faces, n)[3 * k].1 == 1 && front(faces, n)[3 * k + 1].1 == 1
                && front(faces, n)[3 * k + 2].1 == 1
        } by {
            if k < n - 1 {
                assert(front(faces, n)[3 * k] == f0[3 * k]);
                assert(front(faces, n)[3 * k + 1] == f0[3 * k + 1]);
                assert(front(faces, n)[3 * k + 2] == f0[3 * k + 2]);
                assert(back(faces, n)[3 * k] == b0[3 * k]);
                assert(back(faces, n)[3 * k + 1] == b0[3 * k + 1]);
                assert(back(faces, n)[3 * k + 2] == b0[3 * k + 2]);
            }
        }
    }
}

/// The side wall quad of an edge: two triangles spanning depths `1` and `-1`.
pub open spec fn edge_wall(a: MarchVertex, b: MarchVertex, iso: Frac) -> Seq<(MarchVertex, i64)> {
    if silhouette(a, b, iso) {
        seq![(a, 1i64), (b, -1i64), (a, -1i64), (a, 1i64), (b, 1i64), (b, -1i64)]
    } else {
        seq![]
    }
}

/// The side walls of one face.
pub open spec fn face_walls(f: Face, iso: Frac) -> Seq<(MarchVertex, i64)> {
    edge_wall(f.a, f.b, iso) + edge_wall(f.b, f.c, iso) + edge_wall(f.c, f.a, iso)
}

/// The side walls of the first `n` faces.
pub open spec fn walls(faces: Seq<Face>, iso: Frac, n: nat) -> Seq<(MarchVertex, i64)>
    decreases n,
{
    if n == 0 || n > faces.len() {
        seq![]
    } else {
        walls(faces, iso, (n - 1) as nat) + face_walls(faces[n - 1], iso)
    }
}

/// The mesh of a grid: the front cap, the back cap, then the side walls, each vertex with the
/// normal that the silhouette edges give its position.
pub open spec fn mesh_from_grid(g: Seq<Seq<i64>>, iso: Frac) -> Seq<MeshVertex> {
    let faces = marching_faces(g, iso);
    let t = normal_table(faces, iso, faces.len());
    (front(faces, faces.len()) + back(faces, faces.len()) + walls(faces, iso, faces.len())).map_values(
        |p: (MarchVertex, i64)| MeshVertex { pos: p.0.pos, z: p.1, normal: lookup(t, p.0.pos) },
    )
}

/// The mesh that extraction builds from a raster.
pub open spec fn sprite_mesh(r: Seq<Vec<u8>>, o: Options) -> Seq<MeshVertex> {
    mesh_from_grid(cell_grid(r, o.cell_size as int), grid_iso(r, o))
}

fn on_iso_exec(v: MarchVertex, iso: Frac) -> (r: bool)
    requires
        vertex_ok(v),
        iso_ok(iso),
    ensures
        r == on_iso(v, iso),
{
    proof {
        lemma_mul_abs_bound(v.value.num as int, iso.den as int, ISO_NUM_LIMIT as int, ISO_DEN_LIMIT as int);
        lemma_mul_abs_bound(iso.num as int, v.value.den as int, ISO_NUM_LIMIT as int, ISO_DEN_LIMIT as int);
    }
    v.value.num as i128 * iso.den as i128 == iso.num as i128 * v.value.den as i128
}

fn edge_normal_exec(a: RatPoint, b: RatPoint) -> (n: EdgeNormal)
    requires
        point_ok(a),
        point_ok(b),
    ensures
        n == edge_normal(a, b),
{
    proof {
        lemma_mul_abs_bound(b.y as int, a.den as int, POS_LIMIT as int, POS_DEN_LIMIT as int);
        lemma_mul_abs_bound(a.y as int, b.den as int, POS_LIMIT as int, POS_DEN_LIMIT as int);
        lemma_mul_abs_bound(b.x as int, a.den as int, POS_LIMIT as int, POS_DEN_LIMIT as int);
        lemma_mul_abs_bound(a.x as int, b.den as int, POS_LIMIT as int, POS_DEN_LIMIT as int);
    }
    EdgeNormal {
        x: -(b.y as i128 * a.den as i128 - a.y as i128 * b.den as i128),
        y: b.x as i128 * a.den as i128 - a.x as i128 * b.den as i128,
    }
}

fn same_point_exec(p: RatPoint, q: RatPoint) -> (r: bool)
    requires
        point_ok(p),
        point_ok(q),
    ensures
        r == same_point(p, q),
{
    proof {
        lemma_mul_abs_bound(p.x as int, q.den as int, POS_LIMIT as int, POS_DEN_LIMIT as int);
        lemma_mul_abs_bound(q.x as int, p.den as int, POS_LIMIT as int, POS_DEN_LIMIT as int);
        lemma_mul_abs_bound(p.y as int, q.den as int, POS_LIMIT as int, POS_DEN_LIMIT as int);
        lemma_mul_abs_bound(q.y as int, p.den as int, POS_LIMIT as int, POS_DEN_LIMIT as int);
    }
    p.x as i128 * q.den as i128 == q.x as i128 * p.den as i128 && p.y as i128 * q.den as i128
        == q.y as i128 * p.den as i128
}

fn push_edge_entries(a: MarchVertex, b: MarchVertex, iso: Frac, t: &mut Vec<(RatPoint, EdgeNormal)>)
    requires
        vertex_ok(a),
        vertex_ok(b),
        iso_ok(iso),
    ensures
        final(t)@ == old(t)@ + edge_entries(a, b, iso),
{
    if on_iso_exec(a, iso) && on_iso_exec(b, iso) {
        let n = edge_normal_exec(a.pos, b.pos);
        t.push((a.pos, n));
        t.push((b.pos, n));
    }
}

/// Entries of a table whose points are all within bounds.
pub open spec fn table_ok(t: Seq<(RatPoint, EdgeNormal)>) -> bool {
    forall|k: int| 0 <= k < t.len() ==> point_ok(#[trigger] t[k].0)
}

fn build_table(faces: &Vec<Face>, iso: Frac) -> (t: Vec<(RatPoint, EdgeNormal)>)
    requires
        iso_ok(iso),
        forall|k: int| 0 <= k < faces@.len() ==> face_ok(#[trigger] faces@[k]),
    ensures
        t@ == normal_table(faces@, iso, faces@.len()),
        table_ok(t@),
{
    let mut t: Vec<(RatPoint, EdgeNormal)> = Vec::new();
    let mut i: usize = 0;
    while i < faces.len()
        invariant
            iso_ok(iso),
            forall|k: int| 0 <= k < faces@.len() ==> face_ok(#[trigger] faces@[k]),
            i <= faces@.len(),
            t@ == normal_table(faces@, iso, i as nat),
            table_ok(t@),
        decreases faces@.len() - i,
    {
        let f = faces[i];
        assert(face_ok(faces@[i as int]));
        push_edge_entries(f.a, f.b, iso, &mut t);
        push_edge_entries(f.b, f.c, iso, &mut t);
        push_edge_entries(f.c, f.a, iso, &mut t);
        i = i + 1;
    }
    t
}

fn lookup_exec(t: &Vec<(RatPoint, EdgeNormal)>, p: RatPoint) -> (r: Option<EdgeNormal>)
    requires
        table_ok(t@),
        point_ok(p),
    ensures
        r == lookup(t@, p),
{
    let mut i: usize = t.len();
    assert(t@.subrange(0, i as int) == t@);
    while i > 0
        invariant
            table_ok(t@),
            point_ok(p),
            i <= t@.len(),
            lookup(t@, p) == lookup(t@.subrange(0, i as int), p),
        decreases i,
    {
        let e = t[i - 1];
        assert(t@.subrange(0, i as int).drop_last() == t@.subrange(0, i - 1));
        if same_point_exec(e.0, p) {
            return Some(e.1);
        }
        i = i - 1;
    }
    None
}

fn push_edge_wall(a: MarchVertex, b: MarchVertex, iso: Frac, out: &mut Vec<(MarchVertex, i64)>)
    requires
        vertex_ok(a),
        vertex_ok(b),
        iso_ok(iso),
    ensures
        final(out)@ == old(out)@ + edge_wall(a, b, iso),
{
    if on_iso_exec(a, iso) && on_iso_exec(b, iso) {
        out.push((a, 1));
        out.push((b, -1));
        out.push((a, -1));
        out.push((a, 1));
        out.push((b, 1));
        out.push((b, -1));
    }
}

fn placed_vertices(faces: &Vec<Face>, iso: Frac) -> (v: Vec<(MarchVertex, i64)>)
    requires
        iso_ok(iso),
        forall|k: int| 0 <= k < faces@.len() ==> face_ok(#[trigger] faces@[k]),
    ensures
        v@ == front(faces@, faces@.len()) + back(faces@, faces@.len()) + walls(faces@, iso, faces@.len()),
        forall|k: int| 0 <= k < v@.len() ==> vertex_ok(#[trigger] v@[k].0),
{
    let mut v: Vec<(MarchVertex, i64)> = Vec::new();
    let mut i: usize = 0;
    while i < faces.len()
        invariant
            forall|k: int| 0 <= k < faces@.len() ==> face_ok(#[trigger] faces@[k]),
            i <= faces@.len(),
            v@ == front(faces@, i as nat),
            forall|k: int| 0 <= k < v@.len() ==> vertex_ok(#[trigger] v@[k].0),
        decreases faces@.len() - i,
    {
        let f = faces[i];
        assert(face_ok(faces@[i as int]));
        v.push((f.a, 1));
        v.push((f.b, 1));
        v.push((f.c, 1));
        i = i + 1;
    }
    let ghost front_only = v@;
    let mut i: usize = 0;
    while i < faces.len()
        invariant
            forall|k: int| 0 <= k < faces@.len() ==> face_ok(#[trigger] faces@[k]),
            i <= faces@.len(),
            front_only == front(faces@, faces@.len()),
            v@ == front_only + back(faces@, i as nat),
            forall|k: int| 0 <= k < v@.len() ==> vertex_ok(#[trigger] v@[k].0),
        decreases faces@.len() - i,
    {
        let f = faces[i];
        assert(face_ok(faces@[i as int]));
        v.push((f.a, -1));
        v.push((f.c, -1));
        v.push((f.b, -1));
        i = i + 1;
    }
    let ghost front_part = v@;
    assert(front_part == front(faces@, faces@.len()) + back(faces@, faces@.len()));
    let mut j: usize = 0;
    while j < faces.len()
        invariant
            iso_ok(iso),
            forall|k: int| 0 <= k < faces@.len() ==> face_ok(#[trigger] faces@[k]),
            j <= faces@.len(),
            front_part == front(faces@, faces@.len()) + back(faces@, faces@.len()),
            v@ == front_part + walls(faces@, iso, j as nat),
            forall|k: int| 0 <= k < v@.len() ==> vertex_ok(#[trigger] v@[k].0),
        decreases faces@.len() - j,
    {
        let f = faces[j];
        assert(face_ok(faces@[j as int]));
        push_edge_wall(f.a, f.b, iso, &mut v);
        push_edge_wall(f.b, f.c, iso, &mut v);
        push_edge_wall(f.c, f.a, iso, &mut v);
        assert(v@ == front_part + walls(faces@, iso, (j + 1) as nat));
        j = j + 1;
    }
    v
}

/// Builds the thick sprite mesh of a raster of alpha values: the front cap of
/// the region whose mean alpha is at least `o.iso`, the back cap behind it,
/// and a side wall along each silhouette edge.
pub fn generate_mesh(r: &Vec<Vec<u8>>, o: &Options) -> (m: Vec<MeshVertex>)
    requires
        raster_ok(r@),
        options_ok(*o),
    ensures
        m@ == sprite_mesh(r@, *o),
{
    let cs = o.cell_size;
    let g = downsample(r, cs);
    let w = r.len();
    let h = r[0].len();
    proof {
        lemma_cells(w as int, cs as int);
        lemma_cells(h as int, cs as int);
    }
    let lw = span_exec(w, cs, (w + cs - 1) / cs - 1);
    let lh = span_exec(h, cs, (h + cs - 1) / cs - 1);
    proof {
        assert(cs * cs <= 256 && cs * cs * lw <= 4096) by (nonlinear_arith)
            requires
                1 <= cs <= 16,
                1 <= lw <= 16,
        ;
        assert(cs * cs * lw * lh <= 0x1_0000) by (nonlinear_arith)
            requires
                1 <= cs <= 16,
                1 <= lw <= 16,
                1 <= lh <= 16,
        ;
        assert(0 <= o.iso.num * ALPHA_MAX * (cs * cs * lw * lh) <= ALPHA_MAX * 0x1_0000
            * ISO_DEN_LIMIT) by (nonlinear_arith)
            requires
                0 <= o.iso.num <= ISO_DEN_LIMIT,
                0 <= cs * cs * lw * lh <= 0x1_0000,
        ;
        assert(1 <= cs * cs * lw * lh) by (nonlinear_arith)
            requires
                1 <= cs,
                1 <= lw,
                1 <= lh,
        ;
    }
    let scale: i64 = (cs * cs * lw * lh) as i64;
    let iso = Frac { num: o.iso.num * ALPHA_MAX * scale, den: o.iso.den };
    assert(iso == grid_iso(r@, *o));
    let faces = marching_triangles(&g, iso);
    let t = build_table(&faces, iso);
    let placed = placed_vertices(&faces, iso);
    let mut m: Vec<MeshVertex> = Vec::new();
    let mut i: usize = 0;
    while i < placed.len()
        invariant
            table_ok(t@),
            forall|k: int| 0 <= k < placed@.len() ==> vertex_ok(#[trigger] placed@[k].0),
            i <= placed@.len(),
            m@ == placed@.subrange(0, i as int).map_values(
                |p: (MarchVertex, i64)|
                    MeshVertex { pos: p.0.pos, z: p.1, normal: lookup(t@, p.0.pos) },
            ),
        decreases placed@.len() - i,
    {
        let p = placed[i];
        assert(vertex_ok(placed@[i as int].0));
        let n = lookup_exec(&t, p.0.pos);
        m.push(MeshVertex { pos: p.0.pos, z: p.1, normal: n });
        i = i + 1;
        assert(m@ =~= placed@.subrange(0, i as int).map_values(
            |p: (MarchVertex, i64)|
                MeshVertex { pos: p.0.pos, z: p.1, normal: lookup(t@, p.0.pos) },
        ));
    }
    assert(placed@.subrange(0, i as int) == placed@);
    m
}

} // verus!
