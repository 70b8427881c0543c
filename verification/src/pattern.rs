//! Classification of a 2x2 sample window into one of sixteen configurations,
//! and the fixed triangle table for each configuration.
//!
//! Offsets are cell-local, in half units: the cell spans `[-1, 1]` on each
//! axis, so its corners are `(+-1, +-1)` and its edge midpoints are `(0, -1)`
//! (top), `(1, 0)` (right), `(0, 1)` (bottom) and `(-1, 0)` (left).

use vstd::prelude::*;

verus! {

/// A cell-local offset in half units.
#[derive(Clone, Copy, PartialEq, Eq, Structural, Debug)]
pub struct Vec2h {
    /// Half-unit x offset, in `[-1, 1]`.
    pub x: i64,
    /// Half-unit y offset, in `[-1, 1]`.
    pub y: i64,
}

/// One triangle of a configuration's pattern, as three cell-local offsets.
#[derive(Clone, Copy, PartialEq, Eq, Structural, Debug)]
pub struct Triangle {
    /// First corner.
    pub a: Vec2h,
    /// Second corner.
    pub b: Vec2h,
    /// Third corner.
    pub c: Vec2h,
}

/// The 4-bit configuration index of a cell: each inside corner contributes
/// its bit weight — top-left 1, top-right 2, bottom-left 4, bottom-right 8.
pub open spec fn config_of(tl: bool, tr: bool, bl: bool, br: bool) -> int {
    (if tl {
        1int
    } else {
        0int
    }) + (if tr {
        2int
    } else {
        0int
    }) + (if bl {
        4int
    } else {
        0int
    }) + (if br {
        8int
    } else {
        0int
    })
}

/// Builds a triangle from six half-unit offset components.
pub open spec fn tri3(ax: int, ay: int, bx: int, by: int, cx: int, cy: int) -> Triangle {
    Triangle {
        a: Vec2h { x: ax as i64, y: ay as i64 },
        b: Vec2h { x: bx as i64, y: by as i64 },
        c: Vec2h { x: cx as i64, y: cy as i64 },
    }
}

/// Twice the signed area of the triangle: the cross product of its edge
/// vectors `b - a` and `c - a`.  Its sign is the triangle's winding.
pub open spec fn tri_winding(t: Triangle) -> int {
    (t.b.x - t.a.x) * (t.c.y - t.a.y) - (t.b.y - t.a.y) * (t.c.x - t.a.x)
}

/// The fixed triangle list of a configuration.
///
/// Corner offsets: top-left `(-1,-1)`, top-right `(1,-1)`, bottom-left
/// `(-1,1)`, bottom-right `(1,1)`; edge midpoints: top `(0,-1)`, right
/// `(1,0)`, bottom `(0,1)`, left `(-1,0)`.  A single inside corner is
/// clipped to its two adjacent edge midpoints; three inside corners cover
/// the complement; two adjacent inside corners span a trapezoid; the two
/// diagonal (saddle) configurations deliberately emit two separate corner
/// triangles rather than a connected band.  Every triangle is wound the
/// same way: [`tri_winding`] is positive (see
/// [`lemma_pattern_winding_fixed`]).  Indices outside `[0, 16)` have no
/// pattern and yield the empty sequence.
pub open spec fn pattern_tris(p: int) -> Seq<Triangle> {
    if p == 1 {
        // top-left only: corner, top, left
        seq![tri3(-1, -1, 0, -1, -1, 0)]
    } else if p == 2 {
        // top-right only: top, corner, right
        seq![tri3(0, -1, 1, -1, 1, 0)]
    } else if p == 3 {
        // top edge pair
        seq![tri3(-1, -1, 1, -1, -1, 0), tri3(-1, 0, 1, -1, 1, 0)]
    } else if p == 4 {
        // bottom-left only: corner, left, bottom
        seq![tri3(-1, 1, -1, 0, 0, 1)]
    } else if p == 5 {
        // left edge pair
        seq![tri3(-1, -1, 0, -1, -1, 1), tri3(-1, 1, 0, -1, 0, 1)]
    } else if p == 6 {
        // saddle: bottom-left and top-right corner triangles
        seq![tri3(-1, 0, 0, 1, -1, 1), tri3(0, -1, 1, -1, 1, 0)]
    } else if p == 7 {
        // all but bottom-right
        seq![tri3(-1, -1, 1, -1, -1, 1), tri3(-1, 1, 1, -1, 0, 1), tri3(0, 1, 1, -1, 1, 0)]
    } else if p == 8 {
        // bottom-right only: bottom, right, corner
        seq![tri3(0, 1, 1, 0, 1, 1)]
    } else if p == 9 {
        // saddle: top-left and bottom-right corner triangles
        seq![tri3(-1, 0, -1, -1, 0, -1), tri3(0, 1, 1, 0, 1, 1)]
    } else if p == 10 {
        // right edge pair
        seq![tri3(0, 1, 0, -1, 1, -1), tri3(0, 1, 1, -1, 1, 1)]
    } else if p == 11 {
        // all but bottom-left
        seq![tri3(-1, -1, 1, -1, -1, 0), tri3(-1, 0, 1, -1, 0, 1), tri3(0, 1, 1, -1, 1, 1)]
    } else if p == 12 {
        // bottom edge pair
        seq![tri3(-1, 1, -1, 0, 1, 0), tri3(-1, 1, 1, 0, 1, 1)]
    } else if p == 13 {
        // all but top-right
        seq![tri3(-1, -1, 0, -1, -1, 1), tri3(-1, 1, 0, -1, 1, 1), tri3(1, 1, 0, -1, 1, 0)]
    } else if p == 14 {
        // all but top-left
        seq![tri3(-1, 0, 0, -1, -1, 1), tri3(-1, 1, 0, -1, 1, -1), tri3(-1, 1, 1, -1, 1, 1)]
    } else if p == 15 {
        // full cell, split along one diagonal
        seq![tri3(-1, 1, -1, -1, 1, -1), tri3(-1, 1, 1, -1, 1, 1)]
    } else {
        seq![]
    }
}

/// Every offset of the triangle lies in the cell: all components in `[-1, 1]`.
pub open spec fn tri_in_cell(t: Triangle) -> bool {
    &&& -1 <= t.a.x <= 1 && -1 <= t.a.y <= 1
    &&& -1 <= t.b.x <= 1 && -1 <= t.b.y <= 1
    &&& -1 <= t.c.x <= 1 && -1 <= t.c.y <= 1
}

/// Every pattern has at most three triangles, and all their offsets stay
/// inside the cell.
pub proof fn lemma_pattern_tris_bounded(p: int)
    ensures
        pattern_tris(p).len() <= 3,
        forall|i: int|
            0 <= i < pattern_tris(p).len() ==> tri_in_cell(#[trigger] pattern_tris(p)[i]),
{
}

proof fn lemma_tri3_winding(ax: int, ay: int, bx: int, by: int, cx: int, cy: int)
    requires
        -1 <= ax <= 1 && -1 <= ay <= 1,
        -1 <= bx <= 1 && -1 <= by <= 1,
        -1 <= cx <= 1 && -1 <= cy <= 1,
    ensures
        tri_winding(tri3(ax, ay, bx, by, cx, cy)) == (bx - ax) * (cy - ay) - (by - ay) * (cx
            - ax),
{
}

/// Fixed-winding law: every triangle of every configuration is wound the
/// same way — its doubled signed area [`tri_winding`] is strictly
/// positive.  Translating a triangle does not change [`tri_winding`], so
/// the law carries to every triangle a march emits.
pub proof fn lemma_pattern_winding_fixed(p: int)
    ensures
        forall|i: int|
            0 <= i < pattern_tris(p).len() ==> tri_winding(#[trigger] pattern_tris(p)[i]) > 0,
{
    if p == 1 {
        lemma_tri3_winding(-1, -1, 0, -1, -1, 0);
        assert(pattern_tris(p)[0] == tri3(-1, -1, 0, -1, -1, 0));
        assert(tri_winding(pattern_tris(p)[0]) > 0);
    } else if p == 2 {
        lemma_tri3_winding(0, -1, 1, -1, 1, 0);
        assert(pattern_tris(p)[0] == tri3(0, -1, 1, -1, 1, 0));
        assert(tri_winding(pattern_tris(p)[0]) > 0);
    } else if p == 3 {
        lemma_tri3_winding(-1, -1, 1, -1, -1, 0);
        assert(pattern_tris(p)[0] == tri3(-1, -1, 1, -1, -1, 0));
        assert(tri_winding(pattern_tris(p)[0]) > 0);
        lemma_tri3_winding(-1, 0, 1, -1, 1, 0);
        assert(pattern_tris(p)[1] == tri3(-1, 0, 1, -1, 1, 0));
        assert(tri_winding(pattern_tris(p)[1]) > 0);
    } else if p == 4 {
        lemma_tri3_winding(-1, 1, -1, 0, 0, 1);
        assert(pattern_tris(p)[0] == tri3(-1, 1, -1, 0, 0, 1));
        assert(tri_winding(pattern_tris(p)[0]) > 0);
    } else if p == 5 {
        lemma_tri3_winding(-1, -1, 0, -1, -1, 1);
        assert(pattern_tris(p)[0] == tri3(-1, -1, 0, -1, -1, 1));
        assert(tri_winding(pattern_tris(p)[0]) > 0);
        lemma_tri3_winding(-1, 1, 0, -1, 0, 1);
        assert(pattern_tris(p)[1] == tri3(-1, 1, 0, -1, 0, 1));
        assert(tri_winding(pattern_tris(p)[1]) > 0);
    } else if p == 6 {
        lemma_tri3_winding(-1, 0, 0, 1, -1, 1);
        assert(pattern_tris(p)[0] == tri3(-1, 0, 0, 1, -1, 1));
        assert(tri_winding(pattern_tris(p)[0]) > 0);
        lemma_tri3_winding(0, -1, 1, -1, 1, 0);
        assert(pattern_tris(p)[1] == tri3(0, -1, 1, -1, 1, 0));
        assert(tri_winding(pattern_tris(p)[1]) > 0);
    } else if p == 7 {
        lemma_tri3_winding(-1, -1, 1, -1, -1, 1);
        assert(pattern_tris(p)[0] == tri3(-1, -1, 1, -1, -1, 1));
        assert(tri_winding(pattern_tris(p)[0]) > 0);
        lemma_tri3_winding(-1, 1, 1, -1, 0, 1);
        assert(pattern_tris(p)[1] == tri3(-1, 1, 1, -1, 0, 1));
        assert(tri_winding(pattern_tris(p)[1]) > 0);
        lemma_tri3_winding(0, 1, 1, -1, 1, 0);
        assert(pattern_tris(p)[2] == tri3(0, 1, 1, -1, 1, 0));
        assert(tri_winding(pattern_tris(p)[2]) > 0);
    } else if p == 8 {
        lemma_tri3_winding(0, 1, 1, 0, 1, 1);
        assert(pattern_tris(p)[0] == tri3(0, 1, 1, 0, 1, 1));
        assert(tri_winding(pattern_tris(p)[0]) > 0);
    } else if p == 9 {
        lemma_tri3_winding(-1, 0, -1, -1, 0, -1);
        assert(pattern_tris(p)[0] == tri3(-1, 0, -1, -1, 0, -1));
        assert(tri_winding(pattern_tris(p)[0]) > 0);
        lemma_tri3_winding(0, 1, 1, 0, 1, 1);
        assert(pattern_tris(p)[1] == tri3(0, 1, 1, 0, 1, 1));
        assert(tri_winding(pattern_tris(p)[1]) > 0);
    } else if p == 10 {
        lemma_tri3_winding(0, 1, 0, -1, 1, -1);
        assert(pattern_tris(p)[0] == tri3(0, 1, 0, -1, 1, -1));
        assert(tri_winding(pattern_tris(p)[0]) > 0);
        lemma_tri3_winding(0, 1, 1, -1, 1, 1);
        assert(pattern_tris(p)[1] == tri3(0, 1, 1, -1, 1, 1));
        assert(tri_winding(pattern_tris(p)[1]) > 0);
    } else if p == 11 {
        lemma_tri3_winding(-1, -1, 1, -1, -1, 0);
        assert(pattern_tris(p)[0] == tri3(-1, -1, 1, -1, -1, 0));
        assert(tri_winding(pattern_tris(p)[0]) > 0);
        lemma_tri3_winding(-1, 0, 1, -1, 0, 1);
        assert(pattern_tris(p)[1] == tri3(-1, 0, 1, -1, 0, 1));
        assert(tri_winding(pattern_tris(p)[1]) > 0);
        lemma_tri3_winding(0, 1, 1, -1, 1, 1);
        assert(pattern_tris(p)[2] == tri3(0, 1, 1, -1, 1, 1));
        assert(tri_winding(pattern_tris(p)[2]) > 0);
    } else if p == 12 {
        lemma_tri3_winding(-1, 1, -1, 0, 1, 0);
        assert(pattern_tris(p)[0] == tri3(-1, 1, -1, 0, 1, 0));
        assert(tri_winding(pattern_tris(p)[0]) > 0);
        lemma_tri3_winding(-1, 1, 1, 0, 1, 1);
        assert(pattern_tris(p)[1] == tri3(-1, 1, 1, 0, 1, 1));
        assert(tri_winding(pattern_tris(p)[1]) > 0);
    } else if p == 13 {
        lemma_tri3_winding(-1, -1, 0, -1, -1, 1);
        assert(pattern_tris(p)[0] == tri3(-1, -1, 0, -1, -1, 1));
        assert(tri_winding(pattern_tris(p)[0]) > 0);
        lemma_tri3_winding(-1, 1, 0, -1, 1, 1);
        assert(pattern_tris(p)[1] == tri3(-1, 1, 0, -1, 1, 1));
        assert(tri_winding(pattern_tris(p)[1]) > 0);
        lemma_tri3_winding(1, 1, 0, -1, 1, 0);
        assert(pattern_tris(p)[2] == tri3(1, 1, 0, -1, 1, 0));
        assert(tri_winding(pattern_tris(p)[2]) > 0);
    } else if p == 14 {
        lemma_tri3_winding(-1, 0, 0, -1, -1, 1);
        assert(pattern_tris(p)[0] == tri3(-1, 0, 0, -1, -1, 1));
        assert(tri_winding(pattern_tris(p)[0]) > 0);
        lemma_tri3_winding(-1, 1, 0, -1, 1, -1);
        assert(pattern_tris(p)[1] == tri3(-1, 1, 0, -1, 1, -1));
        assert(tri_winding(pattern_tris(p)[1]) > 0);
        lemma_tri3_winding(-1, 1, 1, -1, 1, 1);
        assert(pattern_tris(p)[2] == tri3(-1, 1, 1, -1, 1, 1));
        assert(tri_winding(pattern_tris(p)[2]) > 0);
    } else if p == 15 {
        lemma_tri3_winding(-1, 1, -1, -1, 1, -1);
        assert(pattern_tris(p)[0] == tri3(-1, 1, -1, -1, 1, -1));
        assert(tri_winding(pattern_tris(p)[0]) > 0);
        lemma_tri3_winding(-1, 1, 1, -1, 1, 1);
        assert(pattern_tris(p)[1] == tri3(-1, 1, 1, -1, 1, 1));
        assert(tri_winding(pattern_tris(p)[1]) > 0);
    }
}

/// Combines the four inside/outside corner classifications into the 4-bit
/// configuration index (top-left is the least significant bit).
pub fn calculate_pattern(
    has_top_left: bool,
    has_top_right: bool,
    has_bottom_left: bool,
    has_bottom_right: bool,
) -> (p: u32)
    ensures
        p as int == config_of(has_top_left, has_top_right, has_bottom_left, has_bottom_right),
        p < 16,
{
    let first: u32 = if has_top_left {
        1
    } else {
        0
    };
    let second: u32 = if has_top_right {
        1
    } else {
        0
    };
    let third: u32 = if has_bottom_left {
        1
    } else {
        0
    };
    let fourth: u32 = if has_bottom_right {
        1
    } else {
        0
    };
    first + second * 2 + third * 4 + fourth * 8
}

fn push_tri(v: &mut Vec<Triangle>, ax: i64, ay: i64, bx: i64, by: i64, cx: i64, cy: i64)
    ensures
        final(v)@ == old(v)@.push(
            tri3(ax as int, ay as int, bx as int, by as int, cx as int, cy as int),
        ),
{
    v.push(
        Triangle { a: Vec2h { x: ax, y: ay }, b: Vec2h { x: bx, y: by }, c: Vec2h { x: cx, y: cy } },
    );
}

/// The triangle list of a configuration index, as executable data.
pub fn get_pattern(pattern: u32) -> (r: Vec<Triangle>)
    requires
        pattern < 16,
    ensures
        r@ == pattern_tris(pattern as int),
{
    let mut v: Vec<Triangle> = Vec::new();
    match pattern {
        0 => {},
        1 => {
            push_tri(&mut v, -1, -1, 0, -1, -1, 0);
        },
        2 => {
            push_tri(&mut v, 0, -1, 1, -1, 1, 0);
        },
        3 => {
            push_tri(&mut v, -1, -1, 1, -1, -1, 0);
            push_tri(&mut v, -1, 0, 1, -1, 1, 0);
        },
        4 => {
            push_tri(&mut v, -1, 1, -1, 0, 0, 1);
        },
        5 => {
            push_tri(&mut v, -1, -1, 0, -1, -1, 1);
            push_tri(&mut v, -1, 1, 0, -1, 0, 1);
        },
        6 => {
            push_tri(&mut v, -1, 0, 0, 1, -1, 1);
            push_tri(&mut v, 0, -1, 1, -1, 1, 0);
        },
        7 => {
            push_tri(&mut v, -1, -1, 1, -1, -1, 1);
            push_tri(&mut v, -1, 1, 1, -1, 0, 1);
            push_tri(&mut v, 0, 1, 1, -1, 1, 0);
        },
        8 => {
            push_tri(&mut v, 0, 1, 1, 0, 1, 1);
        },
        9 => {
            push_tri(&mut v, -1, 0, -1, -1, 0, -1);
            push_tri(&mut v, 0, 1, 1, 0, 1, 1);
        },
        10 => {
            push_tri(&mut v, 0, 1, 0, -1, 1, -1);
            push_tri(&mut v, 0, 1, 1, -1, 1, 1);
        },
        11 => {
            push_tri(&mut v, -1, -1, 1, -1, -1, 0);
            push_tri(&mut v, -1, 0, 1, -1, 0, 1);
            push_tri(&mut v, 0, 1, 1, -1, 1, 1);
        },
        12 => {
            push_tri(&mut v, -1, 1, -1, 0, 1, 0);
            push_tri(&mut v, -1, 1, 1, 0, 1, 1);
        },
        13 => {
            push_tri(&mut v, -1, -1, 0, -1, -1, 1);
            push_tri(&mut v, -1, 1, 0, -1, 1, 1);
            push_tri(&mut v, 1, 1, 0, -1, 1, 0);
        },
        14 => {
            push_tri(&mut v, -1, 0, 0, -1, -1, 1);
            push_tri(&mut v, -1, 1, 0, -1, 1, -1);
            push_tri(&mut v, -1, 1, 1, -1, 1, 1);
        },
        15 => {
            push_tri(&mut v, -1, 1, -1, -1, 1, -1);
            push_tri(&mut v, -1, 1, 1, -1, 1, 1);
        },
        _ => {},
    }
    proof {
        assert(v@ =~= pattern_tris(pattern as int));
    }
    v
}

/// The set of the triangle's three corner offsets.
pub open spec fn tri_corners(t: Triangle) -> Set<(int, int)> {
    set![(t.a.x as int, t.a.y as int), (t.b.x as int, t.b.y as int), (t.c.x as int, t.c.y as int)]
}

/// The pattern of the saddle with top-left and bottom-right corners inside.
pub open spec fn saddle_tl_br() -> Seq<Triangle> {
    pattern_tris(config_of(true, false, false, true))
}

/// The pattern of the saddle with top-right and bottom-left corners inside.
pub open spec fn saddle_tr_bl() -> Seq<Triangle> {
    pattern_tris(config_of(false, true, true, false))
}

/// Saddle disambiguation law: a cell whose two inside corners are diagonal
/// emits exactly two disjoint single-corner triangles — each inside corner
/// with its two adjacent edge midpoints — and no triangle touches both
/// inside corners.  This holds for both diagonal orientations.
pub proof fn lemma_saddle_two_corner_triangles()
    ensures
        saddle_tl_br().len() == 2,
        tri_corners(saddle_tl_br()[0]) =~= set![(-1int, -1int), (-1int, 0int), (0int, -1int)],
        tri_corners(saddle_tl_br()[1]) =~= set![(1int, 1int), (0int, 1int), (1int, 0int)],
        tri_corners(saddle_tl_br()[0]).intersect(tri_corners(saddle_tl_br()[1])) =~= Set::<
            (int, int),
        >::empty(),
        forall|i: int|
            0 <= i < saddle_tl_br().len() ==> !(tri_corners(#[trigger] saddle_tl_br()[i]).contains(
                (-1int, -1int),
            ) && tri_corners(saddle_tl_br()[i]).contains((1int, 1int))),
        saddle_tr_bl().len() == 2,
        tri_corners(saddle_tr_bl()[0]) =~= set![(-1int, 1int), (-1int, 0int), (0int, 1int)],
        tri_corners(saddle_tr_bl()[1]) =~= set![(1int, -1int), (0int, -1int), (1int, 0int)],
        tri_corners(saddle_tr_bl()[0]).intersect(tri_corners(saddle_tr_bl()[1])) =~= Set::<
            (int, int),
        >::empty(),
        forall|i: int|
            0 <= i < saddle_tr_bl().len() ==> !(tri_corners(#[trigger] saddle_tr_bl()[i]).contains(
                (1int, -1int),
            ) && tri_corners(saddle_tr_bl()[i]).contains((-1int, 1int))),
{
}

} // verus!
