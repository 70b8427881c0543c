use marching_squares::pattern::{calculate_pattern, get_pattern, Triangle};

fn corners(t: &Triangle) -> [(i64, i64); 3] {
    [(t.a.x, t.a.y), (t.b.x, t.b.y), (t.c.x, t.c.y)]
}

fn has_corner(t: &Triangle, c: (i64, i64)) -> bool {
    corners(t).contains(&c)
}

#[test]
fn calculate_pattern_uses_bit_weights() {
    assert_eq!(calculate_pattern(false, false, false, false), 0);
    assert_eq!(calculate_pattern(true, false, false, false), 1);
    assert_eq!(calculate_pattern(false, true, false, false), 2);
    assert_eq!(calculate_pattern(false, false, true, false), 4);
    assert_eq!(calculate_pattern(false, false, false, true), 8);
    assert_eq!(calculate_pattern(true, true, true, true), 15);
    assert_eq!(calculate_pattern(true, false, false, true), 9);
    assert_eq!(calculate_pattern(false, true, true, false), 6);
}

#[test]
fn calculate_pattern_is_injective() {
    let mut seen = [false; 16];
    for bits in 0u32..16 {
        let p = calculate_pattern(bits & 1 != 0, bits & 2 != 0, bits & 4 != 0, bits & 8 != 0);
        assert!(p < 16);
        assert!(!seen[p as usize]);
        seen[p as usize] = true;
    }
}

#[test]
fn triangle_counts_per_configuration() {
    let expected: [usize; 16] = [0, 1, 1, 2, 1, 2, 2, 3, 1, 2, 2, 3, 2, 3, 3, 2];
    for p in 0u32..16 {
        assert_eq!(get_pattern(p).len(), expected[p as usize], "configuration {}", p);
    }
}

#[test]
fn full_cell_covers_square_with_two_triangles() {
    let tris = get_pattern(15);
    assert_eq!(tris.len(), 2);
    // Both triangles stay on the cell's corners, none touches a midpoint.
    for t in &tris {
        for (cx, cy) in corners(t) {
            assert_eq!(cx.abs(), 1);
            assert_eq!(cy.abs(), 1);
        }
    }
}

#[test]
fn single_corner_is_clipped_to_adjacent_midpoints() {
    // Top-left only: the corner plus the left and top edge midpoints.
    let tris = get_pattern(1);
    assert_eq!(tris.len(), 1);
    let t = &tris[0];
    assert!(has_corner(t, (-1, -1)));
    assert!(has_corner(t, (-1, 0)));
    assert!(has_corner(t, (0, -1)));
}

#[test]
fn saddle_tl_br_gives_two_disjoint_corner_triangles() {
    let tris = get_pattern(9);
    assert_eq!(tris.len(), 2);
    let (tl_tri, br_tri) = if has_corner(&tris[0], (-1, -1)) {
        (&tris[0], &tris[1])
    } else {
        (&tris[1], &tris[0])
    };
    // Each inside corner with its two adjacent edge midpoints.
    assert!(has_corner(tl_tri, (-1, -1)));
    assert!(has_corner(tl_tri, (-1, 0)));
    assert!(has_corner(tl_tri, (0, -1)));
    assert!(has_corner(br_tri, (1, 1)));
    assert!(has_corner(br_tri, (0, 1)));
    assert!(has_corner(br_tri, (1, 0)));
    // No triangle touches both inside corners, and the two share no vertex.
    for t in &tris {
        assert!(!(has_corner(t, (-1, -1)) && has_corner(t, (1, 1))));
    }
    for c in corners(tl_tri) {
        assert!(!has_corner(br_tri, c));
    }
}

#[test]
fn saddle_tr_bl_gives_two_disjoint_corner_triangles() {
    let tris = get_pattern(6);
    assert_eq!(tris.len(), 2);
    let (tr_tri, bl_tri) = if has_corner(&tris[0], (1, -1)) {
        (&tris[0], &tris[1])
    } else {
        (&tris[1], &tris[0])
    };
    assert!(has_corner(tr_tri, (1, -1)));
    assert!(has_corner(tr_tri, (0, -1)));
    assert!(has_corner(tr_tri, (1, 0)));
    assert!(has_corner(bl_tri, (-1, 1)));
    assert!(has_corner(bl_tri, (-1, 0)));
    assert!(has_corner(bl_tri, (0, 1)));
    for t in &tris {
        assert!(!(has_corner(t, (1, -1)) && has_corner(t, (-1, 1))));
    }
    for c in corners(tr_tri) {
        assert!(!has_corner(bl_tri, c));
    }
}

fn doubled_signed_area(t: &Triangle) -> i64 {
    (t.b.x - t.a.x) * (t.c.y - t.a.y) - (t.b.y - t.a.y) * (t.c.x - t.a.x)
}

#[test]
fn every_triangle_has_the_same_winding() {
    for p in 0u32..16 {
        for t in &get_pattern(p) {
            assert!(doubled_signed_area(t) > 0, "configuration {}", p);
        }
    }
}

#[test]
fn all_offsets_stay_inside_the_cell() {
    for p in 0u32..16 {
        for t in &get_pattern(p) {
            for (cx, cy) in corners(t) {
                assert!((-1..=1).contains(&cx));
                assert!((-1..=1).contains(&cy));
            }
        }
    }
}
