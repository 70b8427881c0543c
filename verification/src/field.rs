//! The sparse scalar field: samples keyed by signed 2D lattice coordinates,
//! with a monotonically growing bounding box of every coordinate ever set.

use std::collections::HashMap;
use vstd::map::*;
use vstd::prelude::*;

verus! {

broadcast use vstd::std_specs::hash::group_hash_axioms;

/// Mathematical view of a [`Field`]: the sample map over integer coordinate
/// pairs, and the four bounding-box extrema.
pub ghost struct FieldV {
    /// Samples actually stored; a coordinate absent from the map reads as `0`.
    pub samples: Map<(int, int), int>,
    /// Least x of the bounding box.
    pub min_x: int,
    /// Least y of the bounding box.
    pub min_y: int,
    /// Greatest x of the bounding box.
    pub max_x: int,
    /// Greatest y of the bounding box.
    pub max_y: int,
}

/// The scalar sample seen at `(x, y)`: the stored value, or the default `0`
/// when the coordinate was never set.
pub open spec fn sample_at(m: Map<(int, int), int>, x: int, y: int) -> int {
    if m.contains_key((x, y)) {
        m[(x, y)]
    } else {
        0
    }
}

/// The smaller of two integers.
pub open spec fn min2(a: int, b: int) -> int {
    if a <= b {
        a
    } else {
        b
    }
}

/// The larger of two integers.
pub open spec fn max2(a: int, b: int) -> int {
    if a >= b {
        a
    } else {
        b
    }
}

/// Both components of a coordinate fit in `i32`.
pub open spec fn coord_in_range(x: int, y: int) -> bool {
    &&& -0x8000_0000 <= x < 0x8000_0000
    &&& -0x8000_0000 <= y < 0x8000_0000
}

/// Packs a coordinate pair into one hash key: each component biased into
/// `[0, 2^32)`, the x part in the high half.
spec fn key_spec(x: int, y: int) -> int {
    (x + 0x8000_0000) * 0x1_0000_0000 + (y + 0x8000_0000)
}

proof fn lemma_key_spec_range(x: int, y: int)
    requires
        coord_in_range(x, y),
    ensures
        0 <= key_spec(x, y) <= u64::MAX,
{
}

proof fn lemma_key_spec_injective(x1: int, y1: int, x2: int, y2: int)
    requires
        coord_in_range(x1, y1),
        coord_in_range(x2, y2),
        key_spec(x1, y1) == key_spec(x2, y2),
    ensures
        x1 == x2,
        y1 == y2,
{
}

/// Sparse scalar field over signed 2D integer coordinates.
///
/// Unset coordinates read as the default sample `0`.  The bounding box starts
/// as the degenerate rectangle at the origin and grows to cover every
/// coordinate ever passed to [`Field::set`]; it never shrinks, even when a
/// sample is overwritten with the default value.
pub struct Field {
    samples: HashMap<u64, i64>,
    min_x: i32,
    min_y: i32,
    max_x: i32,
    max_y: i32,
}

impl View for Field {
    type V = FieldV;

    closed spec fn view(&self) -> FieldV {
        FieldV {
            samples: Map::new(
                |c: (int, int)|
                    coord_in_range(c.0, c.1) && self.samples@.contains_key(
                        key_spec(c.0, c.1) as u64,
                    ),
                |c: (int, int)| self.samples@[key_spec(c.0, c.1) as u64] as int,
            ),
            min_x: self.min_x as int,
            min_y: self.min_y as int,
            max_x: self.max_x as int,
            max_y: self.max_y as int,
        }
    }
}

impl Field {
    /// The bounding box contains the origin and every stored coordinate.
    pub open spec fn wf(&self) -> bool {
        &&& self@.min_x <= 0 <= self@.max_x
        &&& self@.min_y <= 0 <= self@.max_y
        &&& forall|c: (int, int)| #[trigger]
            self@.samples.contains_key(c) ==> self@.min_x <= c.0 <= self@.max_x && self@.min_y
                <= c.1 <= self@.max_y
    }

    /// An empty field: no samples, bounding box degenerate at the origin.
    pub fn new() -> (f: Field)
        ensures
            f@.samples == Map::<(int, int), int>::empty(),
            f@.min_x == 0 && f@.max_x == 0,
            f@.min_y == 0 && f@.max_y == 0,
            f.wf(),
    {
        let f = Field { samples: HashMap::new(), min_x: 0, min_y: 0, max_x: 0, max_y: 0 };
        proof {
            assert_maps_equal!(f@.samples, Map::<(int, int), int>::empty());
        }
        f
    }

    fn key_of(x: i32, y: i32) -> (k: u64)
        ensures
            k as int == key_spec(x as int, y as int),
    {
        proof {
            lemma_key_spec_range(x as int, y as int);
        }
        let xb: u64 = ((x as i64) + 0x8000_0000) as u64;
        let yb: u64 = ((y as i64) + 0x8000_0000) as u64;
        xb * 0x1_0000_0000 + yb
    }

    /// Stores `value` at `(x, y)`, overwriting any earlier sample, and grows
    /// the bounding box to cover the coordinate.
    pub fn set(&mut self, x: i32, y: i32, value: i64)
        ensures
            final(self)@.samples == old(self)@.samples.insert(
                (x as int, y as int),
                value as int,
            ),
            final(self)@.min_x == min2(old(self)@.min_x, x as int),
            final(self)@.max_x == max2(old(self)@.max_x, x as int),
            final(self)@.min_y == min2(old(self)@.min_y, y as int),
            final(self)@.max_y == max2(old(self)@.max_y, y as int),
            old(self).wf() ==> final(self).wf(),
    {
        if x < self.min_x {
            self.min_x = x;
        }
        if x > self.max_x {
            self.max_x = x;
        }
        if y < self.min_y {
            self.min_y = y;
        }
        if y > self.max_y {
            self.max_y = y;
        }
        let key = Self::key_of(x, y);
        self.samples.insert(key, value);
        proof {
            let updated = old(self)@.samples.insert((x as int, y as int), value as int);
            assert_maps_equal!(self@.samples, updated, c => {
                if coord_in_range(c.0, c.1) {
                    lemma_key_spec_range(c.0, c.1);
                    lemma_key_spec_range(x as int, y as int);
                    if c.0 != x as int || c.1 != y as int {
                        if key_spec(c.0, c.1) == key_spec(x as int, y as int) {
                            lemma_key_spec_injective(c.0, c.1, x as int, y as int);
                        }
                    }
                }
            });
        }
    }

    /// The sample stored at `(x, y)`, or the default `0` when the coordinate
    /// was never set.  Total: it never fails.
    pub fn get(&self, x: i32, y: i32) -> (v: i64)
        ensures
            v as int == sample_at(self@.samples, x as int, y as int),
    {
        proof {
            lemma_key_spec_range(x as int, y as int);
        }
        let key = Self::key_of(x, y);
        match self.samples.get(&key) {
            Some(v) => *v,
            None => 0,
        }
    }

    /// The sample at a coordinate given in wider integers: coordinates
    /// outside the `i32` lattice are never stored, so they read as `0`.
    pub fn sample(&self, x: i64, y: i64) -> (v: i64)
        ensures
            v as int == sample_at(self@.samples, x as int, y as int),
    {
        if x < -0x8000_0000 || x > 0x7FFF_FFFF || y < -0x8000_0000 || y > 0x7FFF_FFFF {
            0
        } else {
            self.get(x as i32, y as i32)
        }
    }

    /// The bounding box as `(min_x, min_y, max_x, max_y)`.
    pub fn bounds(&self) -> (b: (i32, i32, i32, i32))
        ensures
            b.0 as int == self@.min_x,
            b.1 as int == self@.min_y,
            b.2 as int == self@.max_x,
            b.3 as int == self@.max_y,
    {
        (self.min_x, self.min_y, self.max_x, self.max_y)
    }
}

/// The lower bounding-box extremum a fresh field reaches after setting the
/// coordinate components in `s`, in order: it starts at the origin's `0` and
/// takes `min2` with each component — exactly the fold that [`Field::new`]
/// and [`Field::set`] ensure for `min_x` (over x components) and `min_y`
/// (over y components).
pub open spec fn folded_min(s: Seq<int>) -> int
    decreases s.len(),
{
    if s.len() == 0 {
        0
    } else {
        min2(folded_min(s.drop_last()), s.last())
    }
}

/// The upper counterpart of [`folded_min`]: the fold of `max2` from `0`,
/// as [`Field::new`] and [`Field::set`] ensure for `max_x` and `max_y`.
pub open spec fn folded_max(s: Seq<int>) -> int
    decreases s.len(),
{
    if s.len() == 0 {
        0
    } else {
        max2(folded_max(s.drop_last()), s.last())
    }
}

/// Bounding-box law, lower half: after any run of `set` calls the folded
/// minimum is the componentwise minimum over every component ever set,
/// together with the origin — it is a lower bound on all of them, at most
/// `0`, and attained by `0` or by one of them.
pub proof fn lemma_folded_min_characterizes(s: Seq<int>)
    ensures
        folded_min(s) <= 0,
        forall|i: int| 0 <= i < s.len() ==> folded_min(s) <= #[trigger] s[i],
        folded_min(s) == 0 || exists|i: int| 0 <= i < s.len() && #[trigger] s[i] == folded_min(s),
    decreases s.len(),
{
    if s.len() > 0 {
        let pre = s.drop_last();
        lemma_folded_min_characterizes(pre);
        assert(forall|i: int| 0 <= i < pre.len() ==> pre[i] == #[trigger] s[i]);
        if folded_min(s) != 0 {
            if folded_min(s) == s.last() {
                assert(s[s.len() - 1] == folded_min(s));
            } else {
                let j = choose|j: int| 0 <= j < pre.len() && #[trigger] pre[j] == folded_min(pre);
                assert(s[j] == folded_min(s));
            }
        }
    }
}

/// Bounding-box law, upper half: the mirror of
/// [`lemma_folded_min_characterizes`] for the folded maximum.
pub proof fn lemma_folded_max_characterizes(s: Seq<int>)
    ensures
        folded_max(s) >= 0,
        forall|i: int| 0 <= i < s.len() ==> folded_max(s) >= #[trigger] s[i],
        folded_max(s) == 0 || exists|i: int| 0 <= i < s.len() && #[trigger] s[i] == folded_max(s),
    decreases s.len(),
{
    if s.len() > 0 {
        let pre = s.drop_last();
        lemma_folded_max_characterizes(pre);
        assert(forall|i: int| 0 <= i < pre.len() ==> pre[i] == #[trigger] s[i]);
        if folded_max(s) != 0 {
            if folded_max(s) == s.last() {
                assert(s[s.len() - 1] == folded_max(s));
            } else {
                let j = choose|j: int| 0 <= j < pre.len() && #[trigger] pre[j] == folded_max(pre);
                assert(s[j] == folded_max(s));
            }
        }
    }
}

/// Bounding-box law, order insensitivity: two runs of `set` calls that
/// touch the same components — in any order, with any repetition — grow the
/// box to the same extremum.
pub proof fn lemma_folded_min_order_insensitive(s1: Seq<int>, s2: Seq<int>)
    requires
        forall|i: int| 0 <= i < s1.len() ==> s2.contains(#[trigger] s1[i]),
        forall|i: int| 0 <= i < s2.len() ==> s1.contains(#[trigger] s2[i]),
    ensures
        folded_min(s1) == folded_min(s2),
{
    lemma_folded_min_characterizes(s1);
    lemma_folded_min_characterizes(s2);
    if folded_min(s1) != 0 {
        let i = choose|i: int| 0 <= i < s1.len() && #[trigger] s1[i] == folded_min(s1);
        assert(s2.contains(s1[i]));
        let j = choose|j: int| 0 <= j < s2.len() && s2[j] == s1[i];
        assert(folded_min(s2) <= folded_min(s1));
    }
    if folded_min(s2) != 0 {
        let i = choose|i: int| 0 <= i < s2.len() && #[trigger] s2[i] == folded_min(s2);
        assert(s1.contains(s2[i]));
        let j = choose|j: int| 0 <= j < s1.len() && s1[j] == s2[i];
        assert(folded_min(s1) <= folded_min(s2));
    }
}

/// The mirror of [`lemma_folded_min_order_insensitive`] for the maximum.
pub proof fn lemma_folded_max_order_insensitive(s1: Seq<int>, s2: Seq<int>)
    requires
        forall|i: int| 0 <= i < s1.len() ==> s2.contains(#[trigger] s1[i]),
        forall|i: int| 0 <= i < s2.len() ==> s1.contains(#[trigger] s2[i]),
    ensures
        folded_max(s1) == folded_max(s2),
{
    lemma_folded_max_characterizes(s1);
    lemma_folded_max_characterizes(s2);
    if folded_max(s1) != 0 {
        let i = choose|i: int| 0 <= i < s1.len() && #[trigger] s1[i] == folded_max(s1);
        assert(s2.contains(s1[i]));
        let j = choose|j: int| 0 <= j < s2.len() && s2[j] == s1[i];
        assert(folded_max(s2) >= folded_max(s1));
    }
    if folded_max(s2) != 0 {
        let i = choose|i: int| 0 <= i < s2.len() && #[trigger] s2[i] == folded_max(s2);
        assert(s1.contains(s2[i]));
        let j = choose|j: int| 0 <= j < s1.len() && s1[j] == s2[i];
        assert(folded_max(s1) <= folded_max(s2));
    }
}

} // verus!
