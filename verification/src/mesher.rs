//! The marching-squares mesher: a pure function of (field, threshold) that
//! classifies every cell of the bounding box, expanded by a one-cell margin,
//! and emits a triangle-list mesh buffer.
//!
//! Positions are half-unit integer coordinates: the cell anchored at `(x, y)`
//! contributes vertices at `(2x + dx, 2y + dy, 0)` for pattern offsets
//! `(dx, dy)`.  Normals are all the unit z vector; indices count the emitted
//! vertices `0, 1, 2, ...` with no sharing.

use crate::field::{sample_at, Field, FieldV};
use crate::pattern::{
    calculate_pattern, config_of, get_pattern, lemma_pattern_tris_bounded,
    lemma_pattern_winding_fixed, pattern_tris, tri_in_cell, tri_winding, Triangle,
};
use vstd::assert_seqs_equal;
use vstd::prelude::*;

verus! {

/// A 3D point or vector with integer components; positions are in half
/// units, normals in whole units.
#[derive(Clone, Copy, PartialEq, Eq, Structural, Debug)]
pub struct Vec3i {
    /// x component.
    pub x: i64,
    /// y component.
    pub y: i64,
    /// z component.
    pub z: i64,
}

/// The mesh produced by a march: three parallel buffers, one entry per
/// emitted vertex, indices grouped in triples into triangles.
#[derive(PartialEq, Eq, Debug)]
pub struct MeshBuffer {
    /// Vertex positions in half units, z always `0`.
    pub positions: Vec<Vec3i>,
    /// One unit normal `(0, 0, 1)` per position.
    pub normals: Vec<Vec3i>,
    /// The vertex indices `0, 1, ..., n - 1`, in order.
    pub indices: Vec<u32>,
}

/// A corner is inside iff its sample is strictly greater than the threshold.
pub open spec fn inside_at(m: Map<(int, int), int>, t: int, x: int, y: int) -> bool {
    sample_at(m, x, y) > t
}

/// The configuration index of the cell anchored at `(x, y)`: its corners are
/// the samples at `(x, y)`, `(x+1, y)`, `(x, y+1)` and `(x+1, y+1)`.
pub open spec fn config_at(m: Map<(int, int), int>, t: int, x: int, y: int) -> int {
    config_of(
        inside_at(m, t, x, y),
        inside_at(m, t, x + 1, y),
        inside_at(m, t, x, y + 1),
        inside_at(m, t, x + 1, y + 1),
    )
}

/// The three vertices of one pattern triangle, translated to the cell
/// anchored at `(x, y)`, in half units.
pub open spec fn tri_verts(tr: Triangle, x: int, y: int) -> Seq<(int, int)> {
    seq![
        (2 * x + tr.a.x, 2 * y + tr.a.y),
        (2 * x + tr.b.x, 2 * y + tr.b.y),
        (2 * x + tr.c.x, 2 * y + tr.c.y),
    ]
}

/// The vertices of the first `k` triangles of `s`, translated to the cell
/// anchored at `(x, y)`, in emission order.
pub open spec fn tris_verts(s: Seq<Triangle>, x: int, y: int, k: int) -> Seq<(int, int)>
    decreases k,
{
    if k <= 0 {
        Seq::empty()
    } else {
        tris_verts(s, x, y, k - 1) + tri_verts(s[k - 1], x, y)
    }
}

/// All vertices emitted for the cell anchored at `(x, y)`.
pub open spec fn cell_verts(m: Map<(int, int), int>, t: int, x: int, y: int) -> Seq<(int, int)> {
    let s = pattern_tris(config_at(m, t, x, y));
    tris_verts(s, x, y, s.len() as int)
}

/// All vertices of the cells `(x, y0) ..= (x, y)` of one column, in order;
/// empty when `y < y0`.
pub open spec fn col_verts(m: Map<(int, int), int>, t: int, x: int, y0: int, y: int) -> Seq<
    (int, int),
>
    decreases y - y0 + 1,
{
    if y < y0 {
        Seq::empty()
    } else {
        col_verts(m, t, x, y0, y - 1) + cell_verts(m, t, x, y)
    }
}

/// All vertices of the columns `x0 ..= x` over rows `y0 ..= y1`, in the
/// fixed iteration order: x outer, y inner, both ascending.  Empty when
/// `x < x0`.
pub open spec fn grid_verts(
    m: Map<(int, int), int>,
    t: int,
    x0: int,
    x: int,
    y0: int,
    y1: int,
) -> Seq<(int, int)>
    decreases x - x0 + 1,
{
    if x < x0 {
        Seq::empty()
    } else {
        grid_verts(m, t, x0, x - 1, y0, y1) + col_verts(m, t, x, y0, y1)
    }
}

/// The number of cells a march of the field visits: its bounding box
/// expanded by one cell of margin on every side.
pub open spec fn domain_cells(f: FieldV) -> int {
    (f.max_x - f.min_x + 3) * (f.max_y - f.min_y + 3)
}

/// Every vertex a march of the field emits, in emission order.
pub open spec fn mesh_verts(f: FieldV, t: int) -> Seq<(int, int)> {
    grid_verts(f.samples, t, f.min_x - 1, f.max_x + 1, f.min_y - 1, f.max_y + 1)
}

/// The full relation between a field, a threshold and a marched mesh
/// buffer: positions spell out the emitted vertices in order with z = 0,
/// normals are all the unit z vector, and indices are `0, 1, ..., n - 1`.
pub open spec fn mesh_matches(f: FieldV, t: int, mesh: MeshBuffer) -> bool {
    let gv = mesh_verts(f, t);
    &&& mesh.positions@.len() == gv.len()
    &&& forall|i: int|
        0 <= i < gv.len() ==> (#[trigger] mesh.positions@[i]).x as int == gv[i].0
            && mesh.positions@[i].y as int == gv[i].1 && mesh.positions@[i].z == 0
    &&& mesh.normals@.len() == gv.len()
    &&& forall|i: int|
        0 <= i < gv.len() ==> #[trigger] mesh.normals@[i] == (Vec3i { x: 0, y: 0, z: 1 })
    &&& mesh.indices@.len() == gv.len()
    &&& forall|i: int| 0 <= i < gv.len() ==> (#[trigger] mesh.indices@[i]) as int == i
}

spec fn partial_ok(
    p: Seq<Vec3i>,
    n: Seq<Vec3i>,
    idx: Seq<u32>,
    counter: int,
    done: Seq<(int, int)>,
) -> bool {
    &&& p.len() == done.len()
    &&& n.len() == done.len()
    &&& idx.len() == done.len()
    &&& counter == done.len()
    &&& forall|i: int|
        0 <= i < done.len() ==> (#[trigger] p[i]).x as int == done[i].0 && p[i].y as int
            == done[i].1 && p[i].z == 0
    &&& forall|i: int| 0 <= i < done.len() ==> #[trigger] n[i] == (Vec3i { x: 0, y: 0, z: 1 })
    &&& forall|i: int| 0 <= i < done.len() ==> (#[trigger] idx[i]) as int == i
}

proof fn lemma_tris_verts_len(s: Seq<Triangle>, x: int, y: int, k: int)
    requires
        0 <= k,
    ensures
        tris_verts(s, x, y, k).len() == 3 * k,
    decreases k,
{
    if k > 0 {
        lemma_tris_verts_len(s, x, y, k - 1);
    }
}

proof fn lemma_cell_verts_len(m: Map<(int, int), int>, t: int, x: int, y: int)
    ensures
        cell_verts(m, t, x, y).len() % 3 == 0,
        cell_verts(m, t, x, y).len() <= 9,
{
    let s = pattern_tris(config_at(m, t, x, y));
    lemma_pattern_tris_bounded(config_at(m, t, x, y));
    lemma_tris_verts_len(s, x, y, s.len() as int);
}

proof fn lemma_col_verts_len(m: Map<(int, int), int>, t: int, x: int, y0: int, y: int)
    requires
        y0 - 1 <= y,
    ensures
        col_verts(m, t, x, y0, y).len() % 3 == 0,
        col_verts(m, t, x, y0, y).len() <= 9 * (y - y0 + 1),
    decreases y - y0 + 1,
{
    if y >= y0 {
        lemma_col_verts_len(m, t, x, y0, y - 1);
        lemma_cell_verts_len(m, t, x, y);
    }
}

proof fn lemma_grid_verts_len(
    m: Map<(int, int), int>,
    t: int,
    x0: int,
    x: int,
    y0: int,
    y1: int,
)
    requires
        x0 - 1 <= x,
        y0 - 1 <= y1,
    ensures
        grid_verts(m, t, x0, x, y0, y1).len() % 3 == 0,
        grid_verts(m, t, x0, x, y0, y1).len() <= 9 * (x - x0 + 1) * (y1 - y0 + 1),
    decreases x - x0 + 1,
{
    if x >= x0 {
        lemma_grid_verts_len(m, t, x0, x - 1, y0, y1);
        lemma_col_verts_len(m, t, x, y0, y1);
        let g = grid_verts(m, t, x0, x - 1, y0, y1).len();
        let c = col_verts(m, t, x, y0, y1).len();
        let hh = y1 - y0 + 1;
        assert(g + c <= 9 * (x - x0 + 1) * hh) by (nonlinear_arith)
            requires
                g <= 9 * (x - x0) * hh,
                c <= 9 * hh,
        {
        }
    }
}

fn emit_vertex(
    positions: &mut Vec<Vec3i>,
    normals: &mut Vec<Vec3i>,
    indices: &mut Vec<u32>,
    counter: &mut u32,
    px: i64,
    py: i64,
    Ghost(done): Ghost<Seq<(int, int)>>,
)
    requires
        partial_ok(
            old(positions)@,
            old(normals)@,
            old(indices)@,
            *old(counter) as int,
            done,
        ),
        done.len() < 0xFFFF_FFFF,
    ensures
        partial_ok(
            final(positions)@,
            final(normals)@,
            final(indices)@,
            *final(counter) as int,
            done.push((px as int, py as int)),
        ),
{
    positions.push(Vec3i { x: px, y: py, z: 0 });
    normals.push(Vec3i { x: 0, y: 0, z: 1 });
    indices.push(*counter);
    *counter = *counter + 1;
}

impl Field {
    #[verifier::loop_isolation(false)]
    fn emit_cell(
        &self,
        threshold: i64,
        x: i64,
        y: i64,
        positions: &mut Vec<Vec3i>,
        normals: &mut Vec<Vec3i>,
        indices: &mut Vec<u32>,
        counter: &mut u32,
        Ghost(done): Ghost<Seq<(int, int)>>,
    )
        requires
            partial_ok(
                old(positions)@,
                old(normals)@,
                old(indices)@,
                *old(counter) as int,
                done,
            ),
            done.len() + 9 <= 0xFFFF_FFFF,
            -0x8000_0001 <= x <= 0x8000_0000,
            -0x8000_0001 <= y <= 0x8000_0000,
        ensures
            partial_ok(
                final(positions)@,
                final(normals)@,
                final(indices)@,
                *final(counter) as int,
                done + cell_verts(self@.samples, threshold as int, x as int, y as int),
            ),
    {
        let ghost m = self@.samples;
        let ghost t = threshold as int;
        let v_tl = self.sample(x, y);
        let v_tr = self.sample(x + 1, y);
        let v_bl = self.sample(x, y + 1);
        let v_br = self.sample(x + 1, y + 1);
        let pattern = calculate_pattern(
            v_tl > threshold,
            v_tr > threshold,
            v_bl > threshold,
            v_br > threshold,
        );
        let triangles = get_pattern(pattern);
        let ghost tris = triangles@;
        let ghost mut cur = done;
        proof {
            assert(pattern as int == config_at(m, t, x as int, y as int));
            lemma_pattern_tris_bounded(pattern as int);
            assert(cur =~= done + tris_verts(tris, x as int, y as int, 0));
        }
        let mut k: usize = 0;
        while k < triangles.len()
            invariant
                k <= triangles.len(),
                cur == done + tris_verts(tris, x as int, y as int, k as int),
                partial_ok(positions@, normals@, indices@, *counter as int, cur),
            decreases triangles.len() - k,
        {
            let tr = triangles[k];
            proof {
                assert(tri_in_cell(tr));
                lemma_tris_verts_len(tris, x as int, y as int, k as int);
                assert(cur.len() == done.len() + 3 * (k as int));
            }
            let px = 2 * x + tr.a.x;
            let py = 2 * y + tr.a.y;
            emit_vertex(positions, normals, indices, counter, px, py, Ghost(cur));
            proof {
                cur = cur.push((px as int, py as int));
            }
            let qx = 2 * x + tr.b.x;
            let qy = 2 * y + tr.b.y;
            emit_vertex(positions, normals, indices, counter, qx, qy, Ghost(cur));
            proof {
                cur = cur.push((qx as int, qy as int));
            }
            let rx = 2 * x + tr.c.x;
            let ry = 2 * y + tr.c.y;
            emit_vertex(positions, normals, indices, counter, rx, ry, Ghost(cur));
            proof {
                cur = cur.push((rx as int, ry as int));
                assert(cur =~= done + tris_verts(tris, x as int, y as int, k as int + 1));
            }
            k = k + 1;
        }
        proof {
            assert(cur =~= done + cell_verts(m, t, x as int, y as int));
        }
    }

    /// Marches the field at the given threshold and returns the mesh.
    ///
    /// The result is a pure function of the field state and the threshold:
    /// the contract pins every position, normal and index, so two calls on
    /// unchanged state return identical buffers.  The index count is bounded
    /// by nine vertices per visited cell, which the precondition keeps
    /// within `u32`.
    #[verifier::loop_isolation(false)]
    pub fn march(&self, threshold: i64) -> (mesh: MeshBuffer)
        requires
            self.wf(),
            9 * domain_cells(self@) <= 0xFFFF_FFFF,
        ensures
            mesh_matches(self@, threshold as int, mesh),
            mesh.positions@.len() % 3 == 0,
    {
        let ghost m = self@.samples;
        let ghost t = threshold as int;
        let b = self.bounds();
        let x_lo: i64 = (b.0 as i64) - 1;
        let y_lo: i64 = (b.1 as i64) - 1;
        let x_hi: i64 = (b.2 as i64) + 1;
        let y_hi: i64 = (b.3 as i64) + 1;
        let ghost ww = x_hi as int - x_lo as int + 1;
        let ghost hh = y_hi as int - y_lo as int + 1;
        proof {
            assert(ww * hh == domain_cells(self@));
        }

        let mut positions: Vec<Vec3i> = Vec::new();
        let mut normals: Vec<Vec3i> = Vec::new();
        let mut indices: Vec<u32> = Vec::new();
        let mut current_position: u32 = 0;
        let ghost mut done = Seq::<(int, int)>::empty();

        let mut x: i64 = x_lo;
        while x <= x_hi
            invariant
                x_lo <= x <= x_hi + 1,
                done == grid_verts(m, t, x_lo as int, x - 1, y_lo as int, y_hi as int),
                partial_ok(positions@, normals@, indices@, current_position as int, done),
            decreases x_hi + 1 - x,
        {
            proof {
                assert(done =~= grid_verts(m, t, x_lo as int, x - 1, y_lo as int, y_hi as int)
                    + col_verts(m, t, x as int, y_lo as int, y_lo as int - 1));
            }
            let mut y: i64 = y_lo;
            while y <= y_hi
                invariant
                    y_lo <= y <= y_hi + 1,
                    done == grid_verts(m, t, x_lo as int, x - 1, y_lo as int, y_hi as int)
                        + col_verts(m, t, x as int, y_lo as int, y - 1),
                    partial_ok(positions@, normals@, indices@, current_position as int, done),
                decreases y_hi + 1 - y,
            {
                proof {
                    lemma_grid_verts_len(m, t, x_lo as int, x - 1, y_lo as int, y_hi as int);
                    lemma_col_verts_len(m, t, x as int, y_lo as int, y - 1);
                    let g = grid_verts(m, t, x_lo as int, x - 1, y_lo as int, y_hi as int).len();
                    let c = col_verts(m, t, x as int, y_lo as int, y - 1).len();
                    assert(done.len() + 9 <= 9 * (ww * hh)) by (nonlinear_arith)
                        requires
                            done.len() == g + c,
                            g <= 9 * (x - x_lo) * hh,
                            c <= 9 * (y - y_lo),
                            x - x_lo <= ww - 1,
                            y - y_lo <= hh - 1,
                            1 <= hh,
                    {
                    }
                    assert(ww * hh == domain_cells(self@));
                    assert(done.len() + 9 <= 0xFFFF_FFFF);
                }
                self.emit_cell(
                    threshold,
                    x,
                    y,
                    &mut positions,
                    &mut normals,
                    &mut indices,
                    &mut current_position,
                    Ghost(done),
                );
                proof {
                    done = done + cell_verts(m, t, x as int, y as int);
                    assert(done =~= grid_verts(m, t, x_lo as int, x - 1, y_lo as int, y_hi as int)
                        + col_verts(m, t, x as int, y_lo as int, y as int));
                }
                y = y + 1;
            }
            proof {
                assert(done =~= grid_verts(m, t, x_lo as int, x as int, y_lo as int, y_hi as int));
            }
            x = x + 1;
        }
        proof {
            lemma_grid_verts_len(m, t, x_lo as int, x_hi as int, y_lo as int, y_hi as int);
            assert(done == mesh_verts(self@, t));
        }
        MeshBuffer { positions, normals, indices }
    }
}

proof fn lemma_cell_verts_below(m: Map<(int, int), int>, t: int, x: int, y: int)
    requires
        0 <= t,
        forall|c: (int, int)| #[trigger] m.contains_key(c) ==> m[c] <= t,
    ensures
        cell_verts(m, t, x, y) == Seq::<(int, int)>::empty(),
{
    assert(!inside_at(m, t, x, y));
    assert(!inside_at(m, t, x + 1, y));
    assert(!inside_at(m, t, x, y + 1));
    assert(!inside_at(m, t, x + 1, y + 1));
    assert(config_at(m, t, x, y) == 0);
}

proof fn lemma_col_verts_below(m: Map<(int, int), int>, t: int, x: int, y0: int, y: int)
    requires
        0 <= t,
        forall|c: (int, int)| #[trigger] m.contains_key(c) ==> m[c] <= t,
    ensures
        col_verts(m, t, x, y0, y) == Seq::<(int, int)>::empty(),
    decreases y - y0 + 1,
{
    if y >= y0 {
        lemma_col_verts_below(m, t, x, y0, y - 1);
        lemma_cell_verts_below(m, t, x, y);
        assert(col_verts(m, t, x, y0, y) =~= Seq::<(int, int)>::empty());
    }
}

proof fn lemma_grid_verts_below(m: Map<(int, int), int>, t: int, x0: int, x: int, y0: int, y1: int)
    requires
        0 <= t,
        forall|c: (int, int)| #[trigger] m.contains_key(c) ==> m[c] <= t,
    ensures
        grid_verts(m, t, x0, x, y0, y1) == Seq::<(int, int)>::empty(),
    decreases x - x0 + 1,
{
    if x >= x0 {
        lemma_grid_verts_below(m, t, x0, x - 1, y0, y1);
        lemma_col_verts_below(m, t, x, y0, y1);
        assert(grid_verts(m, t, x0, x, y0, y1) =~= Seq::<(int, int)>::empty());
    }
}

/// Uniform-below-threshold law: when every stored sample is at most the
/// threshold, and the threshold does not lie below the default sample `0`,
/// a march yields empty positions, normals and indices.
pub proof fn lemma_below_threshold_mesh_empty(f: FieldV, t: int, mesh: MeshBuffer)
    requires
        0 <= t,
        forall|c: (int, int)| #[trigger] f.samples.contains_key(c) ==> f.samples[c] <= t,
        mesh_matches(f, t, mesh),
    ensures
        mesh.positions@ == Seq::<Vec3i>::empty(),
        mesh.normals@ == Seq::<Vec3i>::empty(),
        mesh.indices@ == Seq::<u32>::empty(),
{
    lemma_grid_verts_below(f.samples, t, f.min_x - 1, f.max_x + 1, f.min_y - 1, f.max_y + 1);
    assert(mesh.positions@ =~= Seq::<Vec3i>::empty());
    assert(mesh.normals@ =~= Seq::<Vec3i>::empty());
    assert(mesh.indices@ =~= Seq::<u32>::empty());
}

/// Empty-field law: a field with no samples stored, marched at any
/// threshold not below the default sample `0`, yields an empty mesh.
/// (A negative threshold turns the default-valued plane itself inside,
/// so the margin cells then emit triangles; it is excluded.)
pub proof fn lemma_empty_field_mesh_empty(f: FieldV, t: int, mesh: MeshBuffer)
    requires
        0 <= t,
        f.samples == Map::<(int, int), int>::empty(),
        mesh_matches(f, t, mesh),
    ensures
        mesh.positions@ == Seq::<Vec3i>::empty(),
        mesh.normals@ == Seq::<Vec3i>::empty(),
        mesh.indices@ == Seq::<u32>::empty(),
{
    assert(forall|c: (int, int)| !(#[trigger] f.samples.contains_key(c)));
    lemma_below_threshold_mesh_empty(f, t, mesh);
}

/// Determinism law: the mesh relation pins every buffer entry, so any two
/// buffers marched from the same field state and threshold are identical —
/// positions, normals and indices, order included.
pub proof fn lemma_march_deterministic(f: FieldV, t: int, m1: MeshBuffer, m2: MeshBuffer)
    requires
        mesh_matches(f, t, m1),
        mesh_matches(f, t, m2),
    ensures
        m1.positions@ == m2.positions@,
        m1.normals@ == m2.normals@,
        m1.indices@ == m2.indices@,
{
    let gv = mesh_verts(f, t);
    assert_seqs_equal!(m1.positions@, m2.positions@, i => {
        assert(m1.positions@[i].x == m2.positions@[i].x);
        assert(m1.positions@[i].y == m2.positions@[i].y);
        assert(m1.positions@[i].z == m2.positions@[i].z);
    });
    assert_seqs_equal!(m1.normals@, m2.normals@);
    assert_seqs_equal!(m1.indices@, m2.indices@, i => {
        assert(m1.indices@[i] as int == i && m2.indices@[i] as int == i);
    });
}

proof fn lemma_tris_verts_within(s: Seq<Triangle>, x: int, y: int, k: int)
    requires
        forall|i: int| 0 <= i < s.len() ==> tri_in_cell(#[trigger] s[i]),
        0 <= k <= s.len(),
    ensures
        forall|i: int|
            0 <= i < tris_verts(s, x, y, k).len() ==> 2 * x - 1 <= (#[trigger] tris_verts(
                s,
                x,
                y,
                k,
            )[i]).0 <= 2 * x + 1 && 2 * y - 1 <= tris_verts(s, x, y, k)[i].1 <= 2 * y + 1,
    decreases k,
{
    if k > 0 {
        lemma_tris_verts_within(s, x, y, k - 1);
        let w = tris_verts(s, x, y, k);
        let pre = tris_verts(s, x, y, k - 1);
        let tv = tri_verts(s[k - 1], x, y);
        assert forall|i: int|
            0 <= i < w.len() implies 2 * x - 1 <= (#[trigger] w[i]).0 <= 2 * x + 1 && 2 * y - 1
            <= w[i].1 <= 2 * y + 1 by {
            if i < pre.len() {
                assert(w[i] == pre[i]);
            } else {
                assert(w[i] == tv[i - pre.len()]);
                assert(tri_in_cell(s[k - 1]));
            }
        }
    }
}

proof fn lemma_cell_verts_within(m: Map<(int, int), int>, t: int, x: int, y: int)
    ensures
        forall|i: int|
            0 <= i < cell_verts(m, t, x, y).len() ==> 2 * x - 1 <= (#[trigger] cell_verts(
                m,
                t,
                x,
                y,
            )[i]).0 <= 2 * x + 1 && 2 * y - 1 <= cell_verts(m, t, x, y)[i].1 <= 2 * y + 1,
{
    let s = pattern_tris(config_at(m, t, x, y));
    lemma_pattern_tris_bounded(config_at(m, t, x, y));
    lemma_tris_verts_within(s, x, y, s.len() as int);
}

proof fn lemma_col_verts_within(m: Map<(int, int), int>, t: int, x: int, y0: int, y: int)
    ensures
        forall|i: int|
            0 <= i < col_verts(m, t, x, y0, y).len() ==> 2 * x - 1 <= (#[trigger] col_verts(
                m,
                t,
                x,
                y0,
                y,
            )[i]).0 <= 2 * x + 1 && 2 * y0 - 1 <= col_verts(m, t, x, y0, y)[i].1 <= 2 * y + 1,
    decreases y - y0 + 1,
{
    if y >= y0 {
        lemma_col_verts_within(m, t, x, y0, y - 1);
        lemma_cell_verts_within(m, t, x, y);
        let w = col_verts(m, t, x, y0, y);
        let pre = col_verts(m, t, x, y0, y - 1);
        let cv = cell_verts(m, t, x, y);
        assert forall|i: int|
            0 <= i < w.len() implies 2 * x - 1 <= (#[trigger] w[i]).0 <= 2 * x + 1 && 2 * y0 - 1
            <= w[i].1 <= 2 * y + 1 by {
            if i < pre.len() {
                assert(w[i] == pre[i]);
            } else {
                assert(w[i] == cv[i - pre.len()]);
            }
        }
    }
}

proof fn lemma_grid_verts_within(
    m: Map<(int, int), int>,
    t: int,
    x0: int,
    x: int,
    y0: int,
    y1: int,
)
    ensures
        forall|i: int|
            0 <= i < grid_verts(m, t, x0, x, y0, y1).len() ==> 2 * x0 - 1 <= (
            #[trigger] grid_verts(m, t, x0, x, y0, y1)[i]).0 <= 2 * x + 1 && 2 * y0 - 1
                <= grid_verts(m, t, x0, x, y0, y1)[i].1 <= 2 * y1 + 1,
    decreases x - x0 + 1,
{
    if x >= x0 {
        lemma_grid_verts_within(m, t, x0, x - 1, y0, y1);
        lemma_col_verts_within(m, t, x, y0, y1);
        let w = grid_verts(m, t, x0, x, y0, y1);
        let pre = grid_verts(m, t, x0, x - 1, y0, y1);
        let cv = col_verts(m, t, x, y0, y1);
        assert forall|i: int|
            0 <= i < w.len() implies 2 * x0 - 1 <= (#[trigger] w[i]).0 <= 2 * x + 1 && 2 * y0 - 1
            <= w[i].1 <= 2 * y1 + 1 by {
            if i < pre.len() {
                assert(w[i] == pre[i]);
            } else {
                assert(w[i] == cv[i - pre.len()]);
            }
        }
    }
}

/// Twice the signed area of the triangle on three vertices, in half units:
/// the cross product of its edge vectors.  Its sign is the winding.
pub open spec fn vert_winding(a: (int, int), b: (int, int), c: (int, int)) -> int {
    (b.0 - a.0) * (c.1 - a.1) - (b.1 - a.1) * (c.0 - a.0)
}

/// Every aligned triple of the vertex stream is wound positively.
pub open spec fn triples_wound(gv: Seq<(int, int)>) -> bool {
    forall|j: int|
        0 <= j && 3 * j + 2 < gv.len() ==> vert_winding(
            #[trigger] gv[3 * j],
            gv[3 * j + 1],
            gv[3 * j + 2],
        ) > 0
}

proof fn lemma_tri_verts_winding(tr: Triangle, x: int, y: int)
    requires
        tri_winding(tr) > 0,
    ensures
        vert_winding(tri_verts(tr, x, y)[0], tri_verts(tr, x, y)[1], tri_verts(tr, x, y)[2]) > 0,
{
    let tv = tri_verts(tr, x, y);
    let dbx = tv[1].0 - tv[0].0;
    let dby = tv[1].1 - tv[0].1;
    let dcx = tv[2].0 - tv[0].0;
    let dcy = tv[2].1 - tv[0].1;
    assert(vert_winding(tv[0], tv[1], tv[2]) == tri_winding(tr)) by (nonlinear_arith)
        requires
            dbx == tr.b.x - tr.a.x,
            dby == tr.b.y - tr.a.y,
            dcx == tr.c.x - tr.a.x,
            dcy == tr.c.y - tr.a.y,
            vert_winding(tv[0], tv[1], tv[2]) == dbx * dcy - dby * dcx,
            tri_winding(tr) == (tr.b.x - tr.a.x) * (tr.c.y - tr.a.y) - (tr.b.y - tr.a.y) * (
            tr.c.x - tr.a.x),
    {
    }
}

proof fn lemma_tris_verts_wound(s: Seq<Triangle>, x: int, y: int, k: int)
    requires
        forall|i: int| 0 <= i < s.len() ==> tri_winding(#[trigger] s[i]) > 0,
        0 <= k <= s.len(),
    ensures
        triples_wound(tris_verts(s, x, y, k)),
    decreases k,
{
    if k > 0 {
        lemma_tris_verts_wound(s, x, y, k - 1);
        lemma_tris_verts_len(s, x, y, k - 1);
        let w = tris_verts(s, x, y, k);
        let pre = tris_verts(s, x, y, k - 1);
        let tv = tri_verts(s[k - 1], x, y);
        assert forall|j: int|
            0 <= j && 3 * j + 2 < w.len() implies vert_winding(
            #[trigger] w[3 * j],
            w[3 * j + 1],
            w[3 * j + 2],
        ) > 0 by {
            if 3 * j + 2 < pre.len() {
                assert(w[3 * j] == pre[3 * j]);
                assert(w[3 * j + 1] == pre[3 * j + 1]);
                assert(w[3 * j + 2] == pre[3 * j + 2]);
            } else {
                assert(j == k - 1);
                assert(w[3 * j] == tv[0]);
                assert(w[3 * j + 1] == tv[1]);
                assert(w[3 * j + 2] == tv[2]);
                lemma_tri_verts_winding(s[k - 1], x, y);
            }
        }
    }
}

proof fn lemma_cell_verts_wound(m: Map<(int, int), int>, t: int, x: int, y: int)
    ensures
        triples_wound(cell_verts(m, t, x, y)),
{
    let s = pattern_tris(config_at(m, t, x, y));
    lemma_pattern_winding_fixed(config_at(m, t, x, y));
    lemma_tris_verts_wound(s, x, y, s.len() as int);
}

proof fn lemma_concat_wound(s1: Seq<(int, int)>, s2: Seq<(int, int)>)
    requires
        s1.len() % 3 == 0,
        triples_wound(s1),
        triples_wound(s2),
    ensures
        triples_wound(s1 + s2),
{
    let w = s1 + s2;
    let q = s1.len() as int / 3;
    assert(s1.len() == 3 * q);
    assert forall|j: int|
        0 <= j && 3 * j + 2 < w.len() implies vert_winding(
        #[trigger] w[3 * j],
        w[3 * j + 1],
        w[3 * j + 2],
    ) > 0 by {
        if 3 * j + 2 < s1.len() {
            assert(w[3 * j] == s1[3 * j]);
            assert(w[3 * j + 1] == s1[3 * j + 1]);
            assert(w[3 * j + 2] == s1[3 * j + 2]);
        } else {
            assert(3 * j >= s1.len());
            let i = j - q;
            assert(w[3 * j] == s2[3 * i]);
            assert(w[3 * j + 1] == s2[3 * i + 1]);
            assert(w[3 * j + 2] == s2[3 * i + 2]);
        }
    }
}

proof fn lemma_col_verts_wound(m: Map<(int, int), int>, t: int, x: int, y0: int, y: int)
    ensures
        triples_wound(col_verts(m, t, x, y0, y)),
    decreases y - y0 + 1,
{
    if y >= y0 {
        lemma_col_verts_wound(m, t, x, y0, y - 1);
        lemma_cell_verts_wound(m, t, x, y);
        if y0 - 1 <= y - 1 {
            lemma_col_verts_len(m, t, x, y0, y - 1);
            lemma_concat_wound(col_verts(m, t, x, y0, y - 1), cell_verts(m, t, x, y));
        }
    }
}

proof fn lemma_grid_verts_wound(
    m: Map<(int, int), int>,
    t: int,
    x0: int,
    x: int,
    y0: int,
    y1: int,
)
    requires
        y0 - 1 <= y1,
    ensures
        triples_wound(grid_verts(m, t, x0, x, y0, y1)),
    decreases x - x0 + 1,
{
    if x >= x0 {
        lemma_grid_verts_wound(m, t, x0, x - 1, y0, y1);
        lemma_col_verts_wound(m, t, x, y0, y1);
        if x0 - 1 <= x - 1 {
            lemma_grid_verts_len(m, t, x0, x - 1, y0, y1);
            lemma_concat_wound(grid_verts(m, t, x0, x - 1, y0, y1), col_verts(m, t, x, y0, y1));
        }
    }
}

/// Fixed-winding law at the mesh level: the indices group the positions in
/// consecutive triples, and every such triple is a triangle wound the same
/// way — its doubled signed area is strictly positive.  The bounding box
/// of any field built through the API is non-degenerate (it contains the
/// origin), which the first premise records.
pub proof fn lemma_mesh_winding_fixed(f: FieldV, t: int, mesh: MeshBuffer)
    requires
        f.min_y <= f.max_y,
        mesh_matches(f, t, mesh),
    ensures
        forall|j: int|
            0 <= j && 3 * j + 2 < mesh.positions@.len() ==> ({
                let a = #[trigger] mesh.positions@[3 * j];
                let b = mesh.positions@[3 * j + 1];
                let c = mesh.positions@[3 * j + 2];
                (b.x - a.x) * (c.y - a.y) - (b.y - a.y) * (c.x - a.x) > 0
            }),
{
    let gv = mesh_verts(f, t);
    lemma_grid_verts_wound(f.samples, t, f.min_x - 1, f.max_x + 1, f.min_y - 1, f.max_y + 1);
    assert forall|j: int|
        0 <= j && 3 * j + 2 < mesh.positions@.len() implies ({
        let a = #[trigger] mesh.positions@[3 * j];
        let b = mesh.positions@[3 * j + 1];
        let c = mesh.positions@[3 * j + 2];
        (b.x - a.x) * (c.y - a.y) - (b.y - a.y) * (c.x - a.x) > 0
    }) by {
        let a = mesh.positions@[3 * j];
        let b = mesh.positions@[3 * j + 1];
        let c = mesh.positions@[3 * j + 2];
        let dbx = b.x - a.x;
        let dby = b.y - a.y;
        let dcx = c.x - a.x;
        let dcy = c.y - a.y;
        assert(vert_winding(gv[3 * j], gv[3 * j + 1], gv[3 * j + 2]) > 0);
        assert(dbx * dcy - dby * dcx == vert_winding(gv[3 * j], gv[3 * j + 1], gv[3 * j + 2]))
            by (nonlinear_arith)
            requires
                dbx == gv[3 * j + 1].0 - gv[3 * j].0,
                dby == gv[3 * j + 1].1 - gv[3 * j].1,
                dcx == gv[3 * j + 2].0 - gv[3 * j].0,
                dcy == gv[3 * j + 2].1 - gv[3 * j].1,
                vert_winding(gv[3 * j], gv[3 * j + 1], gv[3 * j + 2]) == (gv[3 * j + 1].0 - gv[3
                    * j].0) * (gv[3 * j + 2].1 - gv[3 * j].1) - (gv[3 * j + 1].1 - gv[3 * j].1) * (
                gv[3 * j + 2].0 - gv[3 * j].0),
        {
        }
    }
}

/// Margin-closure law: every vertex a march emits lies inside the iteration
/// domain — the bounding box expanded by the one-cell margin.  In half
/// units, the domain spans `[2(min - 1) - 1, 2(max + 1) + 1]` on each axis,
/// so no triangle references a corner outside the expanded bounding box.
pub proof fn lemma_mesh_within_domain(f: FieldV, t: int, mesh: MeshBuffer)
    requires
        mesh_matches(f, t, mesh),
    ensures
        forall|i: int|
            0 <= i < mesh.positions@.len() ==> 2 * (f.min_x - 1) - 1 <= (
            #[trigger] mesh.positions@[i]).x as int <= 2 * (f.max_x + 1) + 1 && 2 * (f.min_y - 1)
                - 1 <= mesh.positions@[i].y as int <= 2 * (f.max_y + 1) + 1,
{
    lemma_grid_verts_within(f.samples, t, f.min_x - 1, f.max_x + 1, f.min_y - 1, f.max_y + 1);
}

} // verus!

