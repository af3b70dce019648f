use meowjelly::march::{marching_triangles, Frac};
use meowjelly::mesh::{downsample, generate_mesh, Options};

fn grid(cols: &[&[i64]]) -> Vec<Vec<i64>> {
    cols.iter().map(|c| c.to_vec()).collect()
}

#[test]
fn iso_below_every_sample_fills_each_cell() {
    let g = grid(&[&[5, 6, 7], &[8, 9, 10], &[5, 5, 5]]);
    let faces = marching_triangles(&g, Frac { num: 1, den: 1 });
    // 2 x 2 cells, six fan triangles each
    assert_eq!(faces.len(), 24);
    let first = faces[0];
    assert_eq!((first.a.pos.x, first.a.pos.y, first.a.pos.den), (0, 0, 1));
    assert_eq!((first.b.pos.x, first.b.pos.y), (1, 0));
}

#[test]
fn iso_above_every_sample_yields_nothing() {
    let g = grid(&[&[5, 6, 7], &[8, 9, 10], &[5, 5, 5]]);
    let faces = marching_triangles(&g, Frac { num: 11, den: 1 });
    assert!(faces.is_empty());
}

#[test]
fn corner_equal_to_iso_counts_as_inside() {
    let g = grid(&[&[2, 2], &[2, 2]]);
    let faces = marching_triangles(&g, Frac { num: 2, den: 1 });
    assert_eq!(faces.len(), 6);
}

#[test]
fn crossing_is_interpolated_exactly() {
    // one corner inside: value 4 at (0, 0), 0 elsewhere, iso 1
    let g = grid(&[&[4, 0], &[0, 0]]);
    let faces = marching_triangles(&g, Frac { num: 1, den: 1 });
    // polygon: corner (0,0), crossing on the bottom edge, crossing on the left
    // edge, corner (0,0) again; its fan has two triangles
    assert_eq!(faces.len(), 2);
    let f = faces[0];
    assert_eq!((f.a.pos.x, f.a.pos.y, f.a.pos.den), (0, 0, 1));
    // t = (1 - 4) / (0 - 4) = 3/4 along x
    assert_eq!(f.b.pos.x * 4, 3 * f.b.pos.den);
    assert_eq!(f.b.pos.y, 0);
    // the crossing back to (0, 0) from (0, 1): t = 1/4 from (0,1), y = 3/4
    assert_eq!(f.c.pos.x, 0);
    assert_eq!(f.c.pos.y * 4, 3 * f.c.pos.den);
}

#[test]
fn fewer_than_three_vertices_emit_no_triangle() {
    // no corner is inside and no edge is crossed
    let g = grid(&[&[0, 0], &[0, 0]]);
    let faces = marching_triangles(&g, Frac { num: 1, den: 2 });
    assert!(faces.is_empty());
}

#[test]
fn downsample_divides_edge_cells_by_covered_pixels() {
    // 3 x 1 raster, cell size 2: cells cover 2 pixels and 1 pixel
    let r: Vec<Vec<u8>> = vec![vec![255], vec![255], vec![255]];
    let g = downsample(&r, 2);
    assert_eq!(g.len(), 2);
    assert_eq!(g[0].len(), 1);
    // full alpha everywhere: both cells carry the same mean
    assert_eq!(g[0][0], g[1][0]);
    // scale = 2 * 2 * 1 * 1 = 4, sample = 255 * 4
    assert_eq!(g[0][0], 255 * 4);
}

#[test]
fn downsample_mean_of_mixed_cell() {
    let r: Vec<Vec<u8>> = vec![vec![255, 0], vec![0, 0]];
    let g = downsample(&r, 2);
    assert_eq!(g.len(), 1);
    // one quarter of full alpha over the denominator 255 * 16
    assert_eq!(g[0][0] * 4, 255 * 16);
}

#[test]
fn default_options() {
    let o = Options::default();
    assert_eq!(o.cell_size, 10);
    assert_eq!((o.iso.num, o.iso.den), (1, 2));
    assert_eq!((o.normal_uv_offset.num, o.normal_uv_offset.den), (2, 1));
}

#[test]
fn opaque_sprite_gets_front_cap_and_side_walls() {
    // 2 x 2 cells of opaque pixels inside a transparent border
    let mut r: Vec<Vec<u8>> = vec![vec![0; 4]; 4];
    r[1][1] = 255;
    r[1][2] = 255;
    r[2][1] = 255;
    r[2][2] = 255;
    let o = Options { cell_size: 1, iso: Frac { num: 1, den: 2 }, normal_uv_offset: Frac { num: 2, den: 1 } };
    let m = generate_mesh(&r, &o);
    assert!(!m.is_empty());
    assert_eq!(m.len() % 3, 0);
    let front = m.iter().filter(|v| v.z == 1).count();
    let back = m.iter().filter(|v| v.z == -1).count();
    assert!(back > 0);
    // each side wall quad has three vertices at each depth, and each front
    // triangle has a back partner
    assert_eq!(front, back);
    // the side walls come last; every side wall vertex lies on the silhouette
    // and carries a normal
    let front_cap = m.iter().position(|v| v.z == -1).unwrap();
    let caps = 2 * front_cap;
    assert!(caps < m.len());
    assert!(m[front_cap..caps].iter().all(|v| v.z == -1));
    assert!(m[caps..].iter().all(|v| v.normal.is_some()));
}

#[test]
fn transparent_sprite_has_no_mesh() {
    let r: Vec<Vec<u8>> = vec![vec![0; 3]; 3];
    let m = generate_mesh(&r, &Options::default());
    assert!(m.is_empty());
}

#[test]
fn back_cap_mirrors_front_cap() {
    let r: Vec<Vec<u8>> = vec![vec![255; 2]; 2];
    let o = Options { cell_size: 1, iso: Frac { num: 1, den: 2 }, normal_uv_offset: Frac { num: 2, den: 1 } };
    let m = generate_mesh(&r, &o);
    // one cell, six front triangles, six back triangles, no silhouette inside
    assert_eq!(m.len(), 36);
    for k in 0..6 {
        let f = &m[3 * k..3 * k + 3];
        let b = &m[18 + 3 * k..18 + 3 * k + 3];
        assert!(f.iter().all(|v| v.z == 1) && b.iter().all(|v| v.z == -1));
        assert_eq!((b[0].pos.x, b[0].pos.y, b[0].pos.den), (f[0].pos.x, f[0].pos.y, f[0].pos.den));
        assert_eq!((b[1].pos.x, b[1].pos.y, b[1].pos.den), (f[2].pos.x, f[2].pos.y, f[2].pos.den));
        assert_eq!((b[2].pos.x, b[2].pos.y, b[2].pos.den), (f[1].pos.x, f[1].pos.y, f[1].pos.den));
    }
}
