//! Marching squares over a grid of integer samples with a rational iso value.
//!
//! A cell corner is inside when its sample is at least the iso value; a cell
//! edge whose end samples straddle the iso value gets a boundary vertex at the
//! exact rational crossing point. Each cell's ordered polygon is fan
//! triangulated from its first vertex.
use vstd::prelude::*;
use crate::arith::lemma_mul_abs_bound;

verus! {

/// Largest magnitude of a grid sample.
pub const VALUE_LIMIT: i64 = 0x400_0000;

/// Largest denominator of an iso value.
pub const ISO_DEN_LIMIT: i64 = 0x1_0000;

/// Largest magnitude of an iso value's numerator.
pub const ISO_NUM_LIMIT: i64 = 0x400_0000_0000;

/// Largest number of grid columns or rows.
pub const GRID_LIMIT: usize = 0x8000;

/// The rational number `num / den`; `den` is positive where it is used.
#[derive(Clone, Copy, Debug)]
pub struct Frac {
    pub num: i64,
    pub den: i64,
}

/// The point `(x / den, y / den)` of the grid plane; `den` is positive.
#[derive(Clone, Copy, Debug)]
pub struct RatPoint {
    pub x: i64,
    pub y: i64,
    pub den: i64,
}

/// A polygon vertex: its position and the sample value there.
#[derive(Clone, Copy, Debug)]
pub struct MarchVertex {
    pub pos: RatPoint,
    pub value: Frac,
}

/// A triangle of the extracted mesh.
#[derive(Clone, Copy, Debug)]
pub struct Face {
    pub a: MarchVertex,
    pub b: MarchVertex,
    pub c: MarchVertex,
}

/// Largest magnitude of a vertex coordinate numerator.
pub const POS_LIMIT: i64 = 0x1000_0000_0000_0000;

/// Largest vertex coordinate denominator.
pub const POS_DEN_LIMIT: i64 = 0x1000_0000_0000;

/// A point within the bounds that every extracted vertex meets.
pub open spec fn point_ok(p: RatPoint) -> bool {
    &&& -POS_LIMIT <= p.x <= POS_LIMIT
    &&& -POS_LIMIT <= p.y <= POS_LIMIT
    &&& 0 < p.den <= POS_DEN_LIMIT
}

/// A vertex within the bounds that every extracted vertex meets.
pub open spec fn vertex_ok(v: MarchVertex) -> bool {
    &&& point_ok(v.pos)
    &&& 0 < v.value.den <= ISO_DEN_LIMIT
    &&& -ISO_NUM_LIMIT <= v.value.num <= ISO_NUM_LIMIT
}

/// A face whose three vertices are within bounds.
pub open spec fn face_ok(f: Face) -> bool {
    vertex_ok(f.a) && vertex_ok(f.b) && vertex_ok(f.c)
}

/// The grid as columns of samples.
pub open spec fn grid_view(g: Seq<Vec<i64>>) -> Seq<Seq<i64>> {
    g.map_values(|c: Vec<i64>| c@)
}

/// Sample at column `x`, row `y`.
pub open spec fn sample(g: Seq<Seq<i64>>, x: int, y: int) -> int {
    g[x][y] as int
}

/// A rectangular grid of at least one column and row, within the size and value limits.
pub open spec fn grid_ok(g: Seq<Seq<i64>>) -> bool {
    &&& 1 <= g.len() <= GRID_LIMIT
    &&& 1 <= g[0].len() <= GRID_LIMIT
    &&& forall|x: int| 0 <= x < g.len() ==> #[trigger] g[x].len() == g[0].len()
    &&& forall|x: int, y: int|
        0 <= x < g.len() && 0 <= y < g[0].len() ==> -VALUE_LIMIT <= #[trigger] g[x][y]
            <= VALUE_LIMIT
}

/// An iso value with a positive denominator, within the limits.
pub open spec fn iso_ok(iso: Frac) -> bool {
    &&& 0 < iso.den <= ISO_DEN_LIMIT
    &&& -ISO_NUM_LIMIT <= iso.num <= ISO_NUM_LIMIT
}

/// The sample `v` is at least the iso value.
pub open spec fn inside(v: int, iso: Frac) -> bool {
    v * iso.den >= iso.num
}

/// The corner `(x, y)` as a polygon vertex.
pub open spec fn corner(g: Seq<Seq<i64>>, x: int, y: int) -> MarchVertex {
    MarchVertex {
        pos: RatPoint { x: x as i64, y: y as i64, den: 1 },
        value: Frac { num: sample(g, x, y) as i64, den: 1 },
    }
}

/// Numerator and denominator of the crossing parameter `t = (iso - va) / (vb - va)`,
/// the denominator made non-negative.
pub open spec fn crossing_t(va: int, vb: int, iso: Frac) -> (int, int) {
    let n = iso.num - va * iso.den;
    let d = (vb - va) * iso.den;
    if d < 0 {
        (-n, -d)
    } else {
        (n, d)
    }
}

/// The boundary vertex on the edge from `(ax, ay)` to `(bx, by)`, present when the
/// crossing parameter lies strictly between 0 and 1.
pub open spec fn crossing(g: Seq<Seq<i64>>, iso: Frac, ax: int, ay: int, bx: int, by: int) -> Seq<
    MarchVertex,
> {
    let (tn, td) = crossing_t(sample(g, ax, ay), sample(g, bx, by), iso);
    if 0 < tn < td {
        seq![
            MarchVertex {
                pos: RatPoint {
                    x: (ax * td + (bx - ax) * tn) as i64,
                    y: (ay * td + (by - ay) * tn) as i64,
                    den: td as i64,
                },
                value: iso,
            },
        ]
    } else {
        seq![]
    }
}

/// What one edge of a cell adds to the cell's polygon.
pub open spec fn edge_points(g: Seq<Seq<i64>>, iso: Frac, ax: int, ay: int, bx: int, by: int) -> Seq<
    MarchVertex,
> {
    (if inside(sample(g, ax, ay), iso) {
        seq![corner(g, ax, ay)]
    } else {
        seq![]
    }) + crossing(g, iso, ax, ay, bx, by) + (if inside(sample(g, bx, by), iso) {
        seq![corner(g, bx, by)]
    } else {
        seq![]
    })
}

/// The polygon of the cell whose lowest corner is `(x, y)`, walking its corners in cyclic order.
pub open spec fn polygon(g: Seq<Seq<i64>>, iso: Frac, x: int, y: int) -> Seq<MarchVertex> {
    edge_points(g, iso, x, y, x + 1, y) + edge_points(g, iso, x + 1, y, x + 1, y + 1)
        + edge_points(g, iso, x + 1, y + 1, x, y + 1) + edge_points(g, iso, x, y + 1, x, y)
}

/// Fan triangulation of a polygon from its first vertex; empty under three vertices.
pub open spec fn fan(p: Seq<MarchVertex>) -> Seq<Face> {
    if p.len() >= 3 {
        Seq::new((p.len() - 2) as nat, |i: int| Face { a: p[0], b: p[i + 1], c: p[i + 2] })
    } else {
        seq![]
    }
}

/// Faces of the first `n` cells of column `x`.
pub open spec fn column_faces(g: Seq<Seq<i64>>, iso: Frac, x: int, n: nat) -> Seq<Face>
    decreases n,
{
    if n == 0 {
        seq![]
    } else {
        column_faces(g, iso, x, (n - 1) as nat) + fan(polygon(g, iso, x, n - 1))
    }
}

/// Number of cell rows of the grid.
pub open spec fn cell_rows(g: Seq<Seq<i64>>) -> nat {
    (g[0].len() - 1) as nat
}

/// Faces of the cells of the first `n` cell columns.
pub open spec fn grid_faces(g: Seq<Seq<i64>>, iso: Frac, n: nat) -> Seq<Face>
    decreases n,
{
    if n == 0 {
        seq![]
    } else {
        grid_faces(g, iso, (n - 1) as nat) + column_faces(g, iso, n - 1, cell_rows(g))
    }
}

/// All faces of the grid, cell columns in order, cells of a column in order.
pub open spec fn marching_faces(g: Seq<Seq<i64>>, iso: Frac) -> Seq<Face> {
    grid_faces(g, iso, (g.len() - 1) as nat)
}

fn corner_vertex(g: &Vec<Vec<i64>>, x: usize, y: usize) -> (r: MarchVertex)
    requires
        grid_ok(grid_view(g@)),
        x < grid_view(g@).len(),
        y < grid_view(g@)[0].len(),
    ensures
        r == corner(grid_view(g@), x as int, y as int),
{
    assert(grid_view(g@)[x as int].len() == grid_view(g@)[0].len());
    MarchVertex {
        pos: RatPoint { x: x as i64, y: y as i64, den: 1 },
        value: Frac { num: g[x][y], den: 1 },
    }
}

fn is_inside(v: i64, iso: Frac) -> (r: bool)
    requires
        -VALUE_LIMIT <= v <= VALUE_LIMIT,
        iso_ok(iso),
    ensures
        r == inside(v as int, iso),
{
    proof {
        lemma_mul_abs_bound(v as int, iso.den as int, VALUE_LIMIT as int, ISO_DEN_LIMIT as int);
    }
    v * iso.den >= iso.num
}

/// Appends what the edge from `(ax, ay)` to `(bx, by)` adds to a cell's polygon.
fn push_edge(
    g: &Vec<Vec<i64>>,
    iso: Frac,
    ax: usize,
    ay: usize,
    bx: usize,
    by: usize,
    current: &mut Vec<MarchVertex>,
)
    requires
        grid_ok(grid_view(g@)),
        iso_ok(iso),
        ax < grid_view(g@).len(),
        bx < grid_view(g@).len(),
        ay < grid_view(g@)[0].len(),
        by < grid_view(g@)[0].len(),
        -1 <= bx - ax <= 1,
        -1 <= by - ay <= 1,
    ensures
        final(current)@ == old(current)@ + edge_points(
            grid_view(g@),
            iso,
            ax as int,
            ay as int,
            bx as int,
            by as int,
        ),
        forall|k: int|
            old(current)@.len() <= k < final(current)@.len() ==> vertex_ok(
                #[trigger] final(current)@[k],
            ),
{
    let ghost start = current@;
    assert(grid_view(g@)[ax as int].len() == grid_view(g@)[0].len());
    assert(grid_view(g@)[bx as int].len() == grid_view(g@)[0].len());
    let va = g[ax][ay];
    let vb = g[bx][by];
    if is_inside(va, iso) {
        current.push(corner_vertex(g, ax, ay));
    }
    let ghost after_a = current@;
    proof {
        lemma_mul_abs_bound(va as int, iso.den as int, VALUE_LIMIT as int, ISO_DEN_LIMIT as int);
        lemma_mul_abs_bound(
            vb - va,
            iso.den as int,
            2 * VALUE_LIMIT as int,
            ISO_DEN_LIMIT as int,
        );
    }
    let n0: i64 = iso.num - va * iso.den;
    let d0: i64 = (vb - va) * iso.den;
    let (tn, td): (i64, i64) = if d0 < 0 {
        (-n0, -d0)
    } else {
        (n0, d0)
    };
    if 0 < tn && tn < td {
        proof {
            lemma_mul_abs_bound(ax as int, td as int, GRID_LIMIT as int, 0x1000_0000_0000);
            lemma_mul_abs_bound(ay as int, td as int, GRID_LIMIT as int, 0x1000_0000_0000);
            lemma_mul_abs_bound(bx - ax, tn as int, 1, 0x1000_0000_0000);
            lemma_mul_abs_bound(by - ay, tn as int, 1, 0x1000_0000_0000);
        }
        let px: i64 = ax as i64 * td + (bx as i64 - ax as i64) * tn;
        let py: i64 = ay as i64 * td + (by as i64 - ay as i64) * tn;
        current.push(MarchVertex { pos: RatPoint { x: px, y: py, den: td }, value: iso });
    }
    let ghost after_cross = current@;
    assert(after_cross == after_a + crossing(grid_view(g@), iso, ax as int, ay as int, bx as int, by as int));
    if is_inside(vb, iso) {
        current.push(corner_vertex(g, bx, by));
    }
    assert(current@ == start + edge_points(grid_view(g@), iso, ax as int, ay as int, bx as int, by as int));
}

fn cell_polygon(g: &Vec<Vec<i64>>, iso: Frac, x: usize, y: usize) -> (r: Vec<MarchVertex>)
    requires
        grid_ok(grid_view(g@)),
        iso_ok(iso),
        x + 1 < grid_view(g@).len(),
        y + 1 < grid_view(g@)[0].len(),
    ensures
        r@ == polygon(grid_view(g@), iso, x as int, y as int),
        forall|k: int| 0 <= k < r@.len() ==> vertex_ok(#[trigger] r@[k]),
{
    let mut current: Vec<MarchVertex> = Vec::new();
    push_edge(g, iso, x, y, x + 1, y, &mut current);
    push_edge(g, iso, x + 1, y, x + 1, y + 1, &mut current);
    push_edge(g, iso, x + 1, y + 1, x, y + 1, &mut current);
    push_edge(g, iso, x, y + 1, x, y, &mut current);
    current
}

/// Appends the fan triangulation of `p` to `out`.
fn push_fan(p: &Vec<MarchVertex>, out: &mut Vec<Face>)
    ensures
        final(out)@ == old(out)@ + fan(p@),
        (forall|k: int| 0 <= k < p@.len() ==> vertex_ok(#[trigger] p@[k])) ==> forall|k: int|
            old(out)@.len() <= k < final(out)@.len() ==> face_ok(#[trigger] final(out)@[k]),
{
    let ghost start = out@;
    if p.len() >= 3 {
        let o = p[0];
        let mut i: usize = 1;
        while i < p.len() - 1
            invariant
                1 <= i < p@.len(),
                p@.len() >= 3,
                o == p@[0],
                out@ == start + fan(p@).subrange(0, i - 1),
                (forall|k: int| 0 <= k < p@.len() ==> vertex_ok(#[trigger] p@[k])) ==> forall|
                    k: int,
                |
                    start.len() <= k < out@.len() ==> face_ok(#[trigger] out@[k]),
            decreases p@.len() - i,
        {
            out.push(Face { a: o, b: p[i], c: p[i + 1] });
            i = i + 1;
            assert(out@ == start + fan(p@).subrange(0, i - 1));
        }
        assert(fan(p@).subrange(0, i - 1) == fan(p@));
    } else {
        assert(out@ == start + fan(p@));
    }
}

/// Extracts the faces of every cell of the grid on which the samples are at least `iso`.
pub fn marching_triangles(g: &Vec<Vec<i64>>, iso: Frac) -> (r: Vec<Face>)
    requires
        grid_ok(grid_view(g@)),
        iso_ok(iso),
    ensures
        r@ == marching_faces(grid_view(g@), iso),
        forall|k: int| 0 <= k < r@.len() ==> face_ok(#[trigger] r@[k]),
{
    let mut result: Vec<Face> = Vec::new();
    let w = g.len();
    let h = g[0].len();
    let mut x: usize = 0;
    while x + 1 < w
        invariant
            grid_ok(grid_view(g@)),
            iso_ok(iso),
            w == grid_view(g@).len(),
            h == grid_view(g@)[0].len(),
            x < w,
            result@ == grid_faces(grid_view(g@), iso, x as nat),
            forall|k: int| 0 <= k < result@.len() ==> face_ok(#[trigger] result@[k]),
        decreases w - x,
    {
        let mut y: usize = 0;
        while y + 1 < h
            invariant
                grid_ok(grid_view(g@)),
                iso_ok(iso),
                w == grid_view(g@).len(),
                h == grid_view(g@)[0].len(),
                x + 1 < w,
                y < h,
                result@ == grid_faces(grid_view(g@), iso, x as nat) + column_faces(grid_view(g@), iso, x as int, y as nat),
                forall|k: int| 0 <= k < result@.len() ==> face_ok(#[trigger] result@[k]),
            decreases h - y,
        {
            let poly = cell_polygon(g, iso, x, y);
            push_fan(&poly, &mut result);
            assert(result@ == grid_faces(grid_view(g@), iso, x as nat) + column_faces(
                grid_view(g@),
                iso,
                x as int,
                (y + 1) as nat,
            ));
            y = y + 1;
        }
        x = x + 1;
    }
    result
}


/// The ring of a cell when every corner is inside and no edge is crossed:
/// each corner twice, in cyclic order.
pub open spec fn full_ring(g: Seq<Seq<i64>>, x: int, y: int) -> Seq<MarchVertex> {
    seq![
        corner(g, x, y),
        corner(g, x + 1, y),
        corner(g, x + 1, y),
        corner(g, x + 1, y + 1),
        corner(g, x + 1, y + 1),
        corner(g, x, y + 1),
        corner(g, x, y + 1),
        corner(g, x, y),
    ]
}

/// Every sample of the grid lies strictly above the iso value.
pub open spec fn iso_below_all(g: Seq<Seq<i64>>, iso: Frac) -> bool {
    forall|x: int, y: int|
        0 <= x < g.len() && 0 <= y < g[0].len() ==> #[trigger] sample(g, x, y) * iso.den
            > iso.num
}

/// Every sample of the grid lies strictly below the iso value.
pub open spec fn iso_above_all(g: Seq<Seq<i64>>, iso: Frac) -> bool {
    forall|x: int, y: int|
        0 <= x < g.len() && 0 <= y < g[0].len() ==> #[trigger] sample(g, x, y) * iso.den
            < iso.num
}

proof fn lemma_no_crossing(g: Seq<Seq<i64>>, iso: Frac, ax: int, ay: int, bx: int, by: int)
    requires
        iso.den > 0,
        (sample(g, ax, ay) * iso.den > iso.num && sample(g, bx, by) * iso.den > iso.num) || (
        sample(g, ax, ay) * iso.den < iso.num && sample(g, bx, by) * iso.den < iso.num),
    ensures
        crossing(g, iso, ax, ay, bx, by) == Seq::<MarchVertex>::empty(),
{
    let va = sample(g, ax, ay);
    let vb = sample(g, bx, by);
    assert((vb - va) * iso.den == vb * iso.den - va * iso.den) by (nonlinear_arith);
}

proof fn lemma_low_column(g: Seq<Seq<i64>>, iso: Frac, x: int, n: nat)
    requires
        grid_ok(g),
        iso_ok(iso),
        iso_below_all(g, iso),
        0 <= x < g.len() - 1,
        n <= cell_rows(g),
    ensures
        column_faces(g, iso, x, n).len() == 6 * n,
        forall|y: int| 0 <= y < n ==> #[trigger] polygon(g, iso, x, y) == full_ring(g, x, y),
    decreases n,
{
    if n > 0 {
        lemma_low_column(g, iso, x, (n - 1) as nat);
        let y = n - 1;
        assert(sample(g, x, y) * iso.den > iso.num);
        assert(sample(g, x + 1, y) * iso.den > iso.num);
        assert(sample(g, x + 1, y + 1) * iso.den > iso.num);
        assert(sample(g, x, y + 1) * iso.den > iso.num);
        lemma_no_crossing(g, iso, x, y, x + 1, y);
        lemma_no_crossing(g, iso, x + 1, y, x + 1, y + 1);
        lemma_no_crossing(g, iso, x + 1, y + 1, x, y + 1);
        lemma_no_crossing(g, iso, x, y + 1, x, y);
        assert(polygon(g, iso, x, y) == full_ring(g, x, y));
        assert forall|k: int| 0 <= k < n implies #[trigger] polygon(g, iso, x, k) == full_ring(
            g,
            x,
            k,
        ) by {
            if k < n - 1 {
            }
        }
    }
}

proof fn lemma_low_grid(g: Seq<Seq<i64>>, iso: Frac, n: nat)
    requires
        grid_ok(g),
        iso_ok(iso),
        iso_below_all(g, iso),
        n <= g.len() - 1,
    ensures
        grid_faces(g, iso, n).len() == 6 * n * cell_rows(g),
    decreases n,
{
    if n == 0 {
        assert(6 * n * cell_rows(g) == 0) by (nonlinear_arith)
            requires
                n == 0,
        ;
    } else {
        lemma_low_grid(g, iso, (n - 1) as nat);
        lemma_low_column(g, iso, n - 1, cell_rows(g));
        let c = cell_rows(g);
        assert(6 * (n - 1) * c + 6 * c == 6 * n * c) by (nonlinear_arith)
            requires
                n > 0,
        ;
        assert(grid_faces(g, iso, n) == grid_faces(g, iso, (n - 1) as nat) + column_faces(
            g,
            iso,
            n - 1,
            c,
        ));
    }
}

/// With the iso value below every sample, no cell has a hole: the polygon of
/// every cell runs through all four of its corners, and every cell contributes
/// its six fan triangles.
pub proof fn lemma_low_iso_covers_grid(g: Seq<Seq<i64>>, iso: Frac)
    requires
        grid_ok(g),
        iso_ok(iso),
        iso_below_all(g, iso),
    ensures
        forall|x: int, y: int|
            0 <= x < g.len() - 1 && 0 <= y < cell_rows(g) ==> #[trigger] polygon(g, iso, x, y)
                == full_ring(g, x, y),
        marching_faces(g, iso).len() == 6 * (g.len() - 1) * cell_rows(g),
{
    lemma_low_grid(g, iso, (g.len() - 1) as nat);
    assert forall|x: int, y: int|
        0 <= x < g.len() - 1 && 0 <= y < cell_rows(g) implies #[trigger] polygon(g, iso, x, y)
        == full_ring(g, x, y) by {
        lemma_low_column(g, iso, x, cell_rows(g));
    }
}

proof fn lemma_high_column(g: Seq<Seq<i64>>, iso: Frac, x: int, n: nat)
    requires
        grid_ok(g),
        iso_ok(iso),
        iso_above_all(g, iso),
        0 <= x < g.len() - 1,
        n <= cell_rows(g),
    ensures
        column_faces(g, iso, x, n) == Seq::<Face>::empty(),
    decreases n,
{
    if n > 0 {
        lemma_high_column(g, iso, x, (n - 1) as nat);
        let y = n - 1;
        assert(sample(g, x, y) * iso.den < iso.num);
        assert(sample(g, x + 1, y) * iso.den < iso.num);
        assert(sample(g, x + 1, y + 1) * iso.den < iso.num);
        assert(sample(g, x, y + 1) * iso.den < iso.num);
        lemma_no_crossing(g, iso, x, y, x + 1, y);
        lemma_no_crossing(g, iso, x + 1, y, x + 1, y + 1);
        lemma_no_crossing(g, iso, x + 1, y + 1, x, y + 1);
        lemma_no_crossing(g, iso, x, y + 1, x, y);
        assert(polygon(g, iso, x, y).len() == 0);
        assert(column_faces(g, iso, x, n) == column_faces(g, iso, x, (n - 1) as nat));
    }
}

proof fn lemma_high_grid(g: Seq<Seq<i64>>, iso: Frac, n: nat)
    requires
        grid_ok(g),
        iso_ok(iso),
        iso_above_all(g, iso),
        n <= g.len() - 1,
    ensures
        grid_faces(g, iso, n) == Seq::<Face>::empty(),
    decreases n,
{
    if n > 0 {
        lemma_high_grid(g, iso, (n - 1) as nat);
        lemma_high_column(g, iso, n - 1, cell_rows(g));
        assert(grid_faces(g, iso, n) == grid_faces(g, iso, (n - 1) as nat));
    }
}

/// With the iso value above every sample, extraction yields no triangle.
pub proof fn lemma_high_iso_is_empty(g: Seq<Seq<i64>>, iso: Frac)
    requires
        grid_ok(g),
        iso_ok(iso),
        iso_above_all(g, iso),
    ensures
        marching_faces(g, iso).len() == 0,
{
    lemma_high_grid(g, iso, (g.len() - 1) as nat);
}

/// Twice the signed area of a face whose vertices are grid corners.
pub open spec fn twice_area(f: Face) -> int {
    (f.b.pos.x - f.a.pos.x) * (f.c.pos.y - f.a.pos.y) - (f.b.pos.y - f.a.pos.y) * (f.c.pos.x - f.a.pos.x)
}

/// Twice the total signed area of a sequence of corner faces.
pub open spec fn total_twice_area(fs: Seq<Face>) -> int
    decreases fs.len(),
{
    if fs.len() == 0 {
        0
    } else {
        total_twice_area(fs.drop_last()) + twice_area(fs.last())
    }
}

proof fn lemma_area(f: Face, ux: int, uy: int, vx: int, vy: int)
    requires
        f.b.pos.x - f.a.pos.x == ux,
        f.b.pos.y - f.a.pos.y == uy,
        f.c.pos.x - f.a.pos.x == vx,
        f.c.pos.y - f.a.pos.y == vy,
    ensures
        twice_area(f) == ux * vy - uy * vx,
{
}

/// With the iso value below every sample, the triangles of each cell have
/// grid corners for vertices and together cover exactly the cell's unit area.
pub proof fn lemma_low_iso_cell_area(g: Seq<Seq<i64>>, iso: Frac, x: int, y: int)
    requires
        grid_ok(g),
        iso_ok(iso),
        iso_below_all(g, iso),
        0 <= x < g.len() - 1,
        0 <= y < cell_rows(g),
    ensures
        total_twice_area(fan(polygon(g, iso, x, y))) == 2,
        forall|k: int|
            0 <= k < fan(polygon(g, iso, x, y)).len() ==> (#[trigger] fan(polygon(g, iso, x, y))[k]).a.pos.den
                == 1 && fan(polygon(g, iso, x, y))[k].b.pos.den == 1 && fan(polygon(g, iso, x, y))[k].c.pos.den
                == 1,
{
    lemma_low_iso_covers_grid(g, iso);
    let p = full_ring(g, x, y);
    assert(polygon(g, iso, x, y) == p);
    let fs = fan(p);
    assert(fs.len() == 6);
    assert(x + 1 <= GRID_LIMIT && y + 1 <= GRID_LIMIT);
    assert((x as i64) as int == x && ((x + 1) as i64) as int == x + 1);
    assert((y as i64) as int == y && ((y + 1) as i64) as int == y + 1);
    let f0 = fs[0];
    let f1 = fs[1];
    let f2 = fs[2];
    let f3 = fs[3];
    let f4 = fs[4];
    let f5 = fs[5];
    assert(fs.drop_last().drop_last().drop_last().drop_last().drop_last().drop_last().len() == 0);
    assert(p[0] == corner(g, x, y) && p[1] == corner(g, x + 1, y) && p[2] == corner(g, x + 1, y));
    assert(p[3] == corner(g, x + 1, y + 1) && p[4] == corner(g, x + 1, y + 1) && p[5] == corner(g, x, y + 1));
    assert(p[6] == corner(g, x, y + 1) && p[7] == corner(g, x, y));
    assert(f0 == Face { a: p[0], b: p[1], c: p[2] });
    assert(f1 == Face { a: p[0], b: p[2], c: p[3] });
    assert(f2 == Face { a: p[0], b: p[3], c: p[4] });
    assert(f3 == Face { a: p[0], b: p[4], c: p[5] });
    assert(f4 == Face { a: p[0], b: p[5], c: p[6] });
    assert(f5 == Face { a: p[0], b: p[6], c: p[7] });
    assert(corner(g, x, y).pos.x == x && corner(g, x, y).pos.y == y);
    assert(corner(g, x + 1, y).pos.x == x + 1 && corner(g, x + 1, y).pos.y == y);
    assert(corner(g, x + 1, y + 1).pos.x == x + 1 && corner(g, x + 1, y + 1).pos.y == y + 1);
    assert(corner(g, x, y + 1).pos.x == x && corner(g, x, y + 1).pos.y == y + 1);
    lemma_area(f0, 1, 0, 1, 0);
    lemma_area(f1, 1, 0, 1, 1);
    lemma_area(f2, 1, 1, 1, 1);
    lemma_area(f3, 1, 1, 0, 1);
    lemma_area(f4, 0, 1, 0, 1);
    lemma_area(f5, 0, 1, 0, 0);
    reveal_with_fuel(total_twice_area, 7);
    assert(fs.drop_last().last() == f4);
    assert(fs.drop_last().drop_last().last() == f3);
    assert(fs.drop_last().drop_last().drop_last().last() == f2);
    assert(fs.drop_last().drop_last().drop_last().drop_last().last() == f1);
    assert(fs.drop_last().drop_last().drop_last().drop_last().drop_last().last() == f0);
}

} // verus!
