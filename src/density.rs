//! A cubic grid of signed density samples, stored flat as `x * size² + y * size + z`.
use vstd::prelude::*;

verus! {

/// Largest number of samples along one edge of a grid.
pub const MAX_GRID_EDGE: usize = 1024;

/// Density samples of a cube of `size` samples per edge whose first sample sits at the
/// integer world position `origin`. Negative is solid, positive is air.
pub struct DensityGrid {
    pub origin: (i64, i64, i64),
    pub size: usize,
    pub values: Vec<i32>,
}

/// Flat position of sample `(x, y, z)` in a grid of `s` samples per edge.
pub open spec fn flat(s: int, x: int, y: int, z: int) -> int {
    x * s * s + y * s + z
}

/// Every in-range index triple has a flat position inside the sample vector.
pub proof fn lemma_flat_bounds(s: int, x: int, y: int, z: int)
    requires
        0 <= x < s,
        0 <= y < s,
        0 <= z < s,
    ensures
        0 <= flat(s, x, y, z) < s * s * s,
{
    assert(0 <= x * s * s + y * s + z < s * s * s) by (nonlinear_arith)
        requires
            0 <= x < s,
            0 <= y < s,
            0 <= z < s,
    ;
}

/// Distinct in-range index triples have distinct flat positions.
pub proof fn lemma_flat_injective(s: int, x: int, y: int, z: int, x2: int, y2: int, z2: int)
    requires
        0 <= x < s,
        0 <= y < s,
        0 <= z < s,
        0 <= x2 < s,
        0 <= y2 < s,
        0 <= z2 < s,
        flat(s, x, y, z) == flat(s, x2, y2, z2),
    ensures
        x == x2 && y == y2 && z == z2,
{
    let f = flat(s, x, y, z);
    assert(f == (x * s + y) * s + z) by (nonlinear_arith)
        requires f == flat(s, x, y, z);
    assert(f == (x2 * s + y2) * s + z2) by (nonlinear_arith)
        requires f == flat(s, x2, y2, z2);
    vstd::arithmetic::div_mod::lemma_fundamental_div_mod_converse(f, s, x * s + y, z);
    vstd::arithmetic::div_mod::lemma_fundamental_div_mod_converse(f, s, x2 * s + y2, z2);
    vstd::arithmetic::div_mod::lemma_fundamental_div_mod_converse(x * s + y, s, x, y);
    vstd::arithmetic::div_mod::lemma_fundamental_div_mod_converse(x2 * s + y2, s, x2, y2);
}

impl DensityGrid {
    pub open spec fn wf(&self) -> bool {
        1 <= self.size <= MAX_GRID_EDGE
            && self.values@.len() == self.size * self.size * self.size
            && -crate::geometry::COORD_LIMIT <= self.origin.0 <= crate::geometry::COORD_LIMIT
            && -crate::geometry::COORD_LIMIT <= self.origin.1 <= crate::geometry::COORD_LIMIT
            && -crate::geometry::COORD_LIMIT <= self.origin.2 <= crate::geometry::COORD_LIMIT
    }

    pub open spec fn holds(&self, x: int, y: int, z: int) -> bool {
        0 <= x < self.size && 0 <= y < self.size && 0 <= z < self.size
    }

    /// The sample at local index `(x, y, z)`.
    pub open spec fn at(&self, x: int, y: int, z: int) -> int {
        self.values@[flat(self.size as int, x, y, z)] as int
    }

    /// Whether the grid is well formed: a size within bounds, one sample per index triple,
    /// and an origin within `COORD_LIMIT`.
    pub fn is_well_formed(&self) -> (r: bool)
        ensures
            r == self.wf(),
    {
        if self.size < 1 || self.size > MAX_GRID_EDGE {
            return false;
        }
        assert(self.size * self.size * self.size <= 1024 * 1024 * 1024) by (nonlinear_arith)
            requires 1 <= self.size <= 1024;
        assert(self.size * self.size <= 1024 * 1024) by (nonlinear_arith)
            requires 1 <= self.size <= 1024;
        let lim = crate::geometry::COORD_LIMIT;
        self.values.len() == self.size * self.size * self.size && -lim <= self.origin.0
            && self.origin.0 <= lim && -lim <= self.origin.1 && self.origin.1 <= lim && -lim
            <= self.origin.2 && self.origin.2 <= lim
    }

    /// A grid of `size` samples per edge, all equal to `fill`.
    pub fn new(origin: (i64, i64, i64), size: usize, fill: i32) -> (r: DensityGrid)
        requires
            1 <= size <= MAX_GRID_EDGE,
            -crate::geometry::COORD_LIMIT <= origin.0 <= crate::geometry::COORD_LIMIT,
            -crate::geometry::COORD_LIMIT <= origin.1 <= crate::geometry::COORD_LIMIT,
            -crate::geometry::COORD_LIMIT <= origin.2 <= crate::geometry::COORD_LIMIT,
        ensures
            r.wf(),
            r.origin == origin,
            r.size == size,
            forall|k: int| 0 <= k < r.values@.len() ==> r.values@[k] == fill,
    {
        assert(size * size <= MAX_GRID_EDGE * MAX_GRID_EDGE) by (nonlinear_arith)
            requires size <= MAX_GRID_EDGE;
        assert(size * size * size <= MAX_GRID_EDGE * MAX_GRID_EDGE * MAX_GRID_EDGE)
            by (nonlinear_arith)
            requires size <= MAX_GRID_EDGE;
        let total: usize = size * size * size;
        let mut values: Vec<i32> = Vec::new();
        while values.len() < total
            invariant
                values@.len() <= total,
                forall|k: int| 0 <= k < values@.len() ==> values@[k] == fill,
            decreases total - values@.len(),
        {
            values.push(fill);
        }
        DensityGrid { origin, size, values }
    }

    /// Flat position of a sample, checked against the grid.
    pub fn index(&self, x: usize, y: usize, z: usize) -> (r: usize)
        requires
            self.wf(),
            self.holds(x as int, y as int, z as int),
        ensures
            r == flat(self.size as int, x as int, y as int, z as int),
            r < self.values@.len(),
    {
        proof {
            lemma_flat_bounds(self.size as int, x as int, y as int, z as int);
            let s = self.size as int;
            assert(x * s <= s * s) by (nonlinear_arith) requires 0 <= x < s;
            assert(x * s * s <= s * s * s) by (nonlinear_arith) requires 0 <= x < s;
            assert(y * s <= s * s) by (nonlinear_arith) requires 0 <= y < s;
            assert(s * s * s <= 1024 * 1024 * 1024) by (nonlinear_arith) requires 0 <= s <= 1024;
            assert(s * s <= 1024 * 1024) by (nonlinear_arith) requires 0 <= s <= 1024;
            assert(x * self.size * self.size <= flat(self.size as int, x as int, y as int, z as int))
                by (nonlinear_arith)
                requires 0 <= y, 0 <= z, 0 <= self.size;
            assert(y * self.size <= flat(self.size as int, x as int, y as int, z as int))
                by (nonlinear_arith)
                requires 0 <= x, 0 <= z, 0 <= self.size;
        }
        x * self.size * self.size + y * self.size + z
    }

    /// The sample at local index `(x, y, z)`.
    pub fn get(&self, x: usize, y: usize, z: usize) -> (r: i32)
        requires
            self.wf(),
            self.holds(x as int, y as int, z as int),
        ensures
            r == self.at(x as int, y as int, z as int),
    {
        let k = self.index(x, y, z);
        self.values[k]
    }

    /// Overwrites the sample at local index `(x, y, z)`; all other samples stay.
    pub fn set(&mut self, x: usize, y: usize, z: usize, v: i32)
        requires
            old(self).wf(),
            old(self).holds(x as int, y as int, z as int),
        ensures
            final(self).wf(),
            final(self).origin == old(self).origin,
            final(self).size == old(self).size,
            final(self).values@ == old(self).values@.update(
                flat(old(self).size as int, x as int, y as int, z as int),
                v,
            ),
    {
        let k = self.index(x, y, z);
        self.values.set(k, v);
    }
}

} // verus!
