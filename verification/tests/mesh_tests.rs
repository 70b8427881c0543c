use marching_squares::field::Field;
use marching_squares::mesher::MeshBuffer;

fn check_buffer_shape(m: &MeshBuffer) {
    assert_eq!(m.positions.len(), m.normals.len());
    assert_eq!(m.positions.len(), m.indices.len());
    assert_eq!(m.positions.len() % 3, 0);
    for (i, idx) in m.indices.iter().enumerate() {
        assert_eq!(*idx as usize, i);
    }
    for n in &m.normals {
        assert_eq!((n.x, n.y, n.z), (0, 0, 1));
    }
    for p in &m.positions {
        assert_eq!(p.z, 0);
    }
}

#[test]
fn empty_field_yields_empty_mesh() {
    let f = Field::new();
    for t in [0i64, 1, 7, 1_000_000] {
        let m = f.march(t);
        assert!(m.positions.is_empty());
        assert!(m.normals.is_empty());
        assert!(m.indices.is_empty());
    }
}

#[test]
fn all_samples_at_or_below_threshold_yield_empty_mesh() {
    let mut f = Field::new();
    f.set(0, 0, 1);
    f.set(2, 1, 3);
    f.set(-1, 4, -5);
    for t in [3i64, 5, 100] {
        let m = f.march(t);
        assert!(m.positions.is_empty());
        assert!(m.normals.is_empty());
        assert!(m.indices.is_empty());
    }
}

#[test]
fn equality_with_threshold_counts_as_outside() {
    let mut f = Field::new();
    f.set(0, 0, 4);
    let m = f.march(4);
    assert!(m.positions.is_empty());
}

#[test]
fn negative_threshold_turns_default_plane_inside() {
    // The default sample 0 is strictly greater than -1, so every corner of
    // every visited cell is inside: 3 x 3 margin cells, two triangles each.
    let f = Field::new();
    let m = f.march(-1);
    assert_eq!(m.positions.len(), 9 * 2 * 3);
    check_buffer_shape(&m);
}

#[test]
fn single_inside_block_produces_expected_triangle_mix() {
    // The four corners of one cell set above threshold: the center cell is
    // fully inside (2 triangles); around it, four edge cells with two
    // adjacent inside corners (2 each) and four corner cells with one inside
    // corner (1 each): 2 + 4*2 + 4*1 = 14 triangles, 42 vertices.
    let mut f = Field::new();
    f.set(0, 0, 1);
    f.set(1, 0, 1);
    f.set(1, 1, 1);
    f.set(0, 1, 1);
    let m = f.march(0);
    assert_eq!(m.positions.len(), 42);
    check_buffer_shape(&m);
}

#[test]
fn first_cell_of_block_emits_its_corner_triangle() {
    // Iteration starts at cell (-1, -1), whose only inside corner is the
    // block corner (0, 0) at its bottom-right: the pattern is the bottom
    // midpoint, the right midpoint, and the corner, translated by (-2, -2)
    // in half units.
    let mut f = Field::new();
    f.set(0, 0, 1);
    f.set(1, 0, 1);
    f.set(1, 1, 1);
    f.set(0, 1, 1);
    let m = f.march(0);
    let got: Vec<(i64, i64)> = m.positions[..3].iter().map(|p| (p.x, p.y)).collect();
    assert_eq!(got, vec![(-2, -1), (-1, -2), (-1, -1)]);
}

#[test]
fn index_sequence_is_contiguous() {
    let mut f = Field::new();
    f.set(0, 0, 2);
    f.set(3, 1, 5);
    f.set(-2, -2, 1);
    let m = f.march(1);
    check_buffer_shape(&m);
    assert!(!m.indices.is_empty());
}

#[test]
fn march_is_deterministic() {
    let mut f = Field::new();
    f.set(0, 0, 9);
    f.set(2, 2, 4);
    f.set(-1, 3, 8);
    let m1 = f.march(5);
    let m2 = f.march(5);
    assert_eq!(m1, m2);
}

#[test]
fn saddle_cell_emits_two_disjoint_corner_triangles() {
    // Only (0, 0) and (1, 1) are inside: cell (0, 0) is the top-left /
    // bottom-right saddle.  Cells in iteration order before it: (-1, -1),
    // (-1, 0) and (0, -1), one triangle each, so the saddle's two triangles
    // cover vertices 9..15.  Total: 8 triangles, 24 vertices.
    let mut f = Field::new();
    f.set(0, 0, 5);
    f.set(1, 1, 5);
    let m = f.march(0);
    assert_eq!(m.positions.len(), 24);
    check_buffer_shape(&m);

    let verts: Vec<(i64, i64)> = m.positions[9..15].iter().map(|p| (p.x, p.y)).collect();
    let tl_tri = &verts[0..3];
    let br_tri = &verts[3..6];
    // Top-left corner triangle: left midpoint, top midpoint, corner.
    assert!(tl_tri.contains(&(-1, -1)));
    assert!(tl_tri.contains(&(-1, 0)));
    assert!(tl_tri.contains(&(0, -1)));
    // Bottom-right corner triangle: bottom midpoint, corner, right midpoint.
    assert!(br_tri.contains(&(1, 1)));
    assert!(br_tri.contains(&(0, 1)));
    assert!(br_tri.contains(&(1, 0)));
    // Disjoint: neither triangle touches both inside corners.
    assert!(!tl_tri.contains(&(1, 1)));
    assert!(!br_tri.contains(&(-1, -1)));
}

#[test]
fn isolated_sample_contour_stays_inside_margin() {
    // One inside sample at (3, 4): the four cells touching it emit one
    // corner triangle each, and every vertex stays inside the expanded
    // bounding box, in half units [2*(min-1)-1, 2*(max+1)+1] per axis.
    let mut f = Field::new();
    f.set(3, 4, 1);
    let m = f.march(0);
    assert_eq!(m.positions.len(), 12);
    check_buffer_shape(&m);
    let (min_x, min_y, max_x, max_y) = f.bounds();
    assert_eq!((min_x, min_y, max_x, max_y), (0, 0, 3, 4));
    for p in &m.positions {
        assert!(2 * (min_x as i64 - 1) - 1 <= p.x && p.x <= 2 * (max_x as i64 + 1) + 1);
        assert!(2 * (min_y as i64 - 1) - 1 <= p.y && p.y <= 2 * (max_y as i64 + 1) + 1);
    }
    // Tighter still: the contour hugs the four cells around the sample.
    for p in &m.positions {
        assert!(2 * 2 - 1 <= p.x && p.x <= 2 * 4 + 1);
        assert!(2 * 3 - 1 <= p.y && p.y <= 2 * 5 + 1);
    }
}

#[test]
fn emitted_triangles_share_one_winding() {
    let mut f = Field::new();
    f.set(0, 0, 1);
    f.set(1, 0, 1);
    f.set(1, 1, 1);
    f.set(0, 1, 1);
    f.set(3, -2, 4);
    let m = f.march(0);
    assert!(!m.positions.is_empty());
    for tri in m.positions.chunks(3) {
        let (a, b, c) = (&tri[0], &tri[1], &tri[2]);
        let area2 = (b.x - a.x) * (c.y - a.y) - (b.y - a.y) * (c.x - a.x);
        assert!(area2 > 0);
    }
}

#[test]
fn overwriting_with_default_removes_contour() {
    let mut f = Field::new();
    f.set(1, 1, 7);
    assert_eq!(f.march(0).positions.len(), 12);
    f.set(1, 1, 0);
    assert!(f.march(0).positions.is_empty());
}
