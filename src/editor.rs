//! Manual editing of the 8 corner densities of one voxel cell.
use vstd::prelude::*;
use crate::density::{flat, lemma_flat_bounds, lemma_flat_injective, DensityGrid};

verus! {

/// Offset of corner `k` of a cell, in the order the editor shows them: the lower face
/// counter-clockwise from the cell's index, then the upper face in the same order.
pub open spec fn corner_offset(k: int) -> (int, int, int) {
    if k == 0 {
        (0, 0, 0)
    } else if k == 1 {
        (1, 0, 0)
    } else if k == 2 {
        (1, 0, 1)
    } else if k == 3 {
        (0, 0, 1)
    } else if k == 4 {
        (0, 1, 0)
    } else if k == 5 {
        (1, 1, 0)
    } else if k == 6 {
        (1, 1, 1)
    } else {
        (0, 1, 1)
    }
}

/// Which corner of the cell at `c` the sample `(x, y, z)` is, or `-1` if none.
pub open spec fn corner_at(c: (usize, usize, usize), x: int, y: int, z: int) -> int {
    let a = x - c.0;
    let b = y - c.1;
    let d = z - c.2;
    if !(0 <= a <= 1 && 0 <= b <= 1 && 0 <= d <= 1) {
        -1
    } else if b == 0 {
        if a == 0 {
            if d == 0 { 0 } else { 3 }
        } else {
            if d == 0 { 1 } else { 2 }
        }
    } else {
        if a == 0 {
            if d == 0 { 4 } else { 7 }
        } else {
            if d == 0 { 5 } else { 6 }
        }
    }
}

/// Whether the cell at `c` and its far corner lie inside `g`.
pub open spec fn cell_fits(g: DensityGrid, c: (usize, usize, usize)) -> bool {
    c.0 + 1 < g.size && c.1 + 1 < g.size && c.2 + 1 < g.size
}

/// The 8 corner densities of the cell at `c`.
pub open spec fn corners(g: DensityGrid, c: (usize, usize, usize)) -> Seq<i32> {
    Seq::new(
        8,
        |k: int|
            g.values@[flat(
                g.size as int,
                c.0 + corner_offset(k).0,
                c.1 + corner_offset(k).1,
                c.2 + corner_offset(k).2,
            )],
    )
}

/// Whether `g2` is `g` with the 8 corners of the cell at `c` overwritten by `vals`.
pub open spec fn corners_written(
    g: DensityGrid,
    g2: DensityGrid,
    c: (usize, usize, usize),
    vals: Seq<i32>,
) -> bool {
    &&& g2.wf()
    &&& g2.origin == g.origin
    &&& g2.size == g.size
    &&& forall|x: int, y: int, z: int|
        g.holds(x, y, z) ==> #[trigger] g2.at(x, y, z) == if corner_at(c, x, y, z) >= 0 {
            vals[corner_at(c, x, y, z)] as int
        } else {
            g.at(x, y, z)
        }
}

/// Corners written to a cell and read back from the same cell are the values written.
pub proof fn lemma_corner_round_trip(
    g: DensityGrid,
    g2: DensityGrid,
    c: (usize, usize, usize),
    vals: Seq<i32>,
)
    requires
        g.wf(),
        cell_fits(g, c),
        vals.len() == 8,
        corners_written(g, g2, c, vals),
    ensures
        corners(g2, c) == vals,
{
    assert forall|k: int| 0 <= k < 8 implies corners(g2, c)[k] == vals[k] by {
        let o = corner_offset(k);
        assert(g.holds(c.0 + o.0, c.1 + o.1, c.2 + o.2));
        assert(corner_at(c, c.0 + o.0, c.1 + o.1, c.2 + o.2) == k);
        assert(g2.at(c.0 + o.0, c.1 + o.1, c.2 + o.2) == vals[k]);
    }
    assert(corners(g2, c) =~= vals);
}

fn offset(k: usize) -> (r: (usize, usize, usize))
    requires
        k < 8,
    ensures
        r.0 as int == corner_offset(k as int).0,
        r.1 as int == corner_offset(k as int).1,
        r.2 as int == corner_offset(k as int).2,
{
    if k == 0 {
        (0, 0, 0)
    } else if k == 1 {
        (1, 0, 0)
    } else if k == 2 {
        (1, 0, 1)
    } else if k == 3 {
        (0, 0, 1)
    } else if k == 4 {
        (0, 1, 0)
    } else if k == 5 {
        (1, 1, 0)
    } else if k == 6 {
        (1, 1, 1)
    } else {
        (0, 1, 1)
    }
}

/// A voxel cell staged for manual editing: its block, its index and its 8 corner
/// densities in the order of `corner_offset`.
pub struct VoxelPicker {
    /// Grid position of the block holding the voxel.
    pub parent: (i32, i32, i32),
    /// Index of the voxel in the block's density grid.
    pub index: (usize, usize, usize),
    /// Corner densities.
    pub values: [i32; 8],
}

impl VoxelPicker {
    /// Stages the cell at `index` of `grid`, reading its 8 corner densities.
    pub fn new(parent: (i32, i32, i32), index: (usize, usize, usize), grid: &DensityGrid) -> (r:
        VoxelPicker)
        requires
            grid.wf(),
            cell_fits(*grid, index),
        ensures
            r.parent == parent,
            r.index == index,
            r.values@ == corners(*grid, index),
    {
        let mut values: [i32; 8] = [0; 8];
        let mut k: usize = 0;
        while k < 8
            invariant
                grid.wf(),
                cell_fits(*grid, index),
                0 <= k <= 8,
                values@.len() == 8,
                forall|m: int| 0 <= m < k ==> values@[m] == corners(*grid, index)[m],
            decreases 8 - k,
        {
            let o = offset(k);
            let v = grid.get(index.0 + o.0, index.1 + o.1, index.2 + o.2);
            values.set(k, v);
            k = k + 1;
        }
        assert(values@ =~= corners(*grid, index));
        VoxelPicker { parent, index, values }
    }

    /// Overwrites corner `k` of the staged values.
    pub fn set_value(&mut self, k: usize, v: i32)
        requires
            k < 8,
        ensures
            final(self).parent == old(self).parent,
            final(self).index == old(self).index,
            final(self).values@ == old(self).values@.update(k as int, v),
    {
        self.values.set(k, v);
    }

    /// Writes the staged corner densities into `grid` at the staged index; no other
    /// sample changes.
    pub fn apply(&self, grid: &mut DensityGrid)
        requires
            old(grid).wf(),
            cell_fits(*old(grid), self.index),
        ensures
            corners_written(*old(grid), *final(grid), self.index, self.values@),
    {
        let ghost g0 = *grid;
        let c = self.index;
        let mut k: usize = 0;
        while k < 8
            invariant
                grid.wf(),
                g0.wf(),
                grid.origin == g0.origin,
                grid.size == g0.size,
                cell_fits(g0, c),
                c == self.index,
                0 <= k <= 8,
                self.values@.len() == 8,
                forall|x: int, y: int, z: int|
                    g0.holds(x, y, z) ==> #[trigger] grid.at(x, y, z) == if 0 <= corner_at(
                        c,
                        x,
                        y,
                        z,
                    ) < k {
                        self.values@[corner_at(c, x, y, z)] as int
                    } else {
                        g0.at(x, y, z)
                    },
            decreases 8 - k,
        {
            let o = offset(k);
            let ghost before = *grid;
            let (x, y, z) = (c.0 + o.0, c.1 + o.1, c.2 + o.2);
            grid.set(x, y, z, self.values[k]);
            proof {
                let s = g0.size as int;
                lemma_flat_bounds(s, x as int, y as int, z as int);
                assert(corner_at(c, x as int, y as int, z as int) == k);
                assert forall|x2: int, y2: int, z2: int|
                    g0.holds(x2, y2, z2) implies #[trigger] grid.at(x2, y2, z2) == if 0
                        <= corner_at(c, x2, y2, z2) < k + 1 {
                        self.values@[corner_at(c, x2, y2, z2)] as int
                    } else {
                        g0.at(x2, y2, z2)
                    } by {
                    assert(before.at(x2, y2, z2) == if 0 <= corner_at(c, x2, y2, z2) < k {
                        self.values@[corner_at(c, x2, y2, z2)] as int
                    } else {
                        g0.at(x2, y2, z2)
                    });
                    if x2 != x || y2 != y || z2 != z {
                        lemma_flat_bounds(s, x2, y2, z2);
                        if flat(s, x2, y2, z2) == flat(s, x as int, y as int, z as int) {
                            lemma_flat_injective(s, x2, y2, z2, x as int, y as int, z as int);
                        }
                        assert(corner_at(c, x2, y2, z2) != k);
                    }
                }
            }
            k = k + 1;
        }
    }
}

/// Commits a staged voxel edit into `grid`; with nothing staged, `grid` is unchanged.
pub fn commit(staged: &Option<VoxelPicker>, grid: &mut DensityGrid)
    requires
        old(grid).wf(),
        staged matches Some(v) ==> cell_fits(*old(grid), v.index),
    ensures
        match staged {
            Some(v) => corners_written(*old(grid), *final(grid), v.index, v.values@),
            None => *final(grid) == *old(grid),
        },
{
    match staged {
        Some(v) => v.apply(grid),
        None => {},
    }
}

} // verus!
