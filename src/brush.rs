//! The density brush: an additive falloff kernel applied around a cursor point.
use vstd::prelude::*;
use crate::density::{flat, lemma_flat_bounds, lemma_flat_injective, DensityGrid, MAX_GRID_EDGE};
use crate::cursor::State;
use crate::geometry::{floor_div, Point, COORD_LIMIT, FIXED_ONE};

verus! {

/// `FIXED_ONE` squared: squared fixed-point distances per squared world unit.
pub const FIXED_SQ: i64 = 1_000_000;

/// A brush of integer radius `size`; it edits a cube of `2 * size + 1` samples per edge.
pub struct Brush {
    size: i32,
}

/// First sample of the brush cube along one axis: `ceil(c - r)` for a fixed-point `c`.
pub open spec fn cube_base(c: int, r: int) -> int {
    -((r * FIXED_ONE - c) / FIXED_ONE as int)
}

/// Squared distance, in squared fixed-point steps, from the sample at integer world
/// position `(wx, wy, wz)` to the fixed-point point `c`.
pub open spec fn distance_sq(wx: int, wy: int, wz: int, c: Point) -> int {
    let dx = wx * FIXED_ONE - c.x;
    let dy = wy * FIXED_ONE - c.y;
    let dz = wz * FIXED_ONE - c.z;
    dx * dx + dy * dy + dz * dz
}

/// The falloff for a squared distance `d2` (fixed-point) inside a cube of edge `side`:
/// `4 - 4 * trunc(d2) / side²`, with integer division throughout.
pub open spec fn falloff_spec(d2: int, side: int) -> int {
    4 - (4 * (d2 / FIXED_SQ as int)) / (side * side)
}

/// Whether integer `w` lies in the brush cube along an axis whose cursor coordinate is `c`.
pub open spec fn in_cube_axis(w: int, c: int, r: int) -> bool {
    cube_base(c, r) <= w < cube_base(c, r) + 2 * r + 1
}

/// What a stroke of radius `r` at `c` adds to the sample at world position `(wx, wy, wz)`.
pub open spec fn brush_delta(r: int, c: Point, wx: int, wy: int, wz: int) -> int {
    let side = 2 * r + 1;
    let d2 = distance_sq(wx, wy, wz, c);
    if in_cube_axis(wx, c.x as int, r) && in_cube_axis(wy, c.y as int, r) && in_cube_axis(
        wz,
        c.z as int,
        r,
    ) && d2 <= side * side * FIXED_SQ {
        falloff_spec(d2, side)
    } else {
        0
    }
}

/// `v + d`, held at `i32::MAX` from above.
pub open spec fn add_saturating(v: int, d: int) -> int {
    if v + d > i32::MAX {
        i32::MAX as int
    } else {
        v + d
    }
}

/// The sample at local index `(x, y, z)` of `g` after one stroke of radius `r` at `c`.
pub open spec fn stroked(g: DensityGrid, r: int, c: Point, x: int, y: int, z: int) -> int {
    add_saturating(
        g.at(x, y, z),
        brush_delta(r, c, g.origin.0 + x, g.origin.1 + y, g.origin.2 + z),
    )
}

/// Whether `g2` is `g` after one stroke of radius `r` at `c`.
pub open spec fn is_stroke(g: DensityGrid, g2: DensityGrid, r: int, c: Point) -> bool {
    &&& g2.wf()
    &&& g2.origin == g.origin
    &&& g2.size == g.size
    &&& forall|x: int, y: int, z: int|
        g.holds(x, y, z) ==> #[trigger] g2.at(x, y, z) == stroked(g, r, c, x, y, z)
}

/// Whether the brush cube of radius `r` around `c` lies inside the grid `g`.
pub open spec fn cube_fits(g: DensityGrid, r: int, c: Point) -> bool {
    &&& g.origin.0 <= cube_base(c.x as int, r)
    &&& cube_base(c.x as int, r) + 2 * r + 1 <= g.origin.0 + g.size
    &&& g.origin.1 <= cube_base(c.y as int, r)
    &&& cube_base(c.y as int, r) + 2 * r + 1 <= g.origin.1 + g.size
    &&& g.origin.2 <= cube_base(c.z as int, r)
    &&& cube_base(c.z as int, r) + 2 * r + 1 <= g.origin.2 + g.size
}

/// Where a stroke stands in the grid: the brush cube of radius `r` around `c` fits in `g`,
/// its first sample is `(bx, by, bz)` in world coordinates (`ceil(c - r)` per axis) and
/// `(lx, ly, lz)` in the grid.
spec fn cube_frame(
    g: DensityGrid,
    r: int,
    c: Point,
    bx: int,
    by: int,
    bz: int,
    lx: int,
    ly: int,
    lz: int,
) -> bool {
    &&& cube_fits(g, r, c)
    &&& bx == cube_base(c.x as int, r) && by == cube_base(c.y as int, r) && bz == cube_base(
        c.z as int,
        r,
    )
    &&& c.x - r * FIXED_ONE <= bx * FIXED_ONE < c.x - r * FIXED_ONE + FIXED_ONE
    &&& c.y - r * FIXED_ONE <= by * FIXED_ONE < c.y - r * FIXED_ONE + FIXED_ONE
    &&& c.z - r * FIXED_ONE <= bz * FIXED_ONE < c.z - r * FIXED_ONE + FIXED_ONE
    &&& lx == bx - g.origin.0 && ly == by - g.origin.1 && lz == bz - g.origin.2
}

/// The falloff for a squared fixed-point distance within the affected region of a cube of
/// edge `side`: `4` at the centre, `0` where the squared distance equals `side²`.
pub fn falloff(d2: i64, side: i64) -> (r: i64)
    requires
        1 <= side <= MAX_GRID_EDGE,
        0 <= d2 <= side * side * FIXED_SQ,
    ensures
        r == falloff_spec(d2 as int, side as int),
        0 <= r <= 4,
{
    let q = d2 / FIXED_SQ;
    assert(q <= side * side) by (nonlinear_arith)
        requires q == d2 as int / 1_000_000int, d2 <= side * side * 1_000_000int;
    assert((4 * q) / (side * side) <= 4) by (nonlinear_arith)
        requires 0 <= q <= side * side, side >= 1;
    assert((4 * q) / (side * side) >= 0) by (nonlinear_arith)
        requires 0 <= q, side >= 1;
    assert(1 <= side * side <= 1024 * 1024) by (nonlinear_arith)
        requires 1 <= side <= 1024;
    4 - (4 * q) / (side * side)
}

/// First sample of the brush cube along one axis.
fn base_coord(c: i64, r: i64) -> (b: i64)
    requires
        -COORD_LIMIT <= c <= COORD_LIMIT,
        0 <= r <= i32::MAX,
    ensures
        b == cube_base(c as int, r as int),
        b * FIXED_ONE >= c - r * FIXED_ONE,
        b * FIXED_ONE < c - r * FIXED_ONE + FIXED_ONE,
{
    let q = floor_div(r * FIXED_ONE - c, FIXED_ONE);
    proof {
        vstd::arithmetic::div_mod::lemma_fundamental_div_mod(
            r * FIXED_ONE - c,
            FIXED_ONE as int,
        );
    }
    -q
}

impl Brush {
    /// The brush radius.
    pub closed spec fn radius(&self) -> int {
        self.size as int
    }

    pub closed spec fn wf(&self) -> bool {
        0 <= self.size
    }

    /// A brush of the given radius.
    pub fn new(size: i32) -> (b: Brush)
        requires
            0 <= size,
        ensures
            b.wf(),
            b.radius() == size,
    {
        Brush { size }
    }

    /// The brush radius.
    pub fn size(&self) -> (r: i32)
        ensures
            r == self.radius(),
    {
        self.size
    }

    /// Whether the brush cube around `c` lies inside `g`, so that a stroke there may run.
    pub fn fits(&self, c: Point, g: &DensityGrid) -> (r: bool)
        requires
            self.wf(),
            c.in_range(),
            g.wf(),
        ensures
            r == cube_fits(*g, self.radius(), c),
    {
        let r = self.size as i64;
        let side = 2 * r + 1;
        let s = g.size as i64;
        let bx = base_coord(c.x, r);
        let by = base_coord(c.y, r);
        let bz = base_coord(c.z, r);
        g.origin.0 <= bx && bx + side <= g.origin.0 + s && g.origin.1 <= by && by + side
            <= g.origin.1 + s && g.origin.2 <= bz && bz + side <= g.origin.2 + s
    }

    /// One stroke of the brush at `c`: every sample of the cube of edge `2r + 1` that starts
    /// at `ceil(c - r)` and whose squared distance to `c` is at most the edge squared gains
    /// the falloff for that distance (held at `i32::MAX`); no other sample changes.
    pub fn stroke(&self, c: Point, g: &mut DensityGrid)
        requires
            self.wf(),
            c.in_range(),
            old(g).wf(),
            cube_fits(*old(g), self.radius(), c),
        ensures
            is_stroke(*old(g), *final(g), self.radius(), c),
    {
        let ghost g0 = *g;
        let r = self.size as i64;
        let side = 2 * r + 1;
        let bx = base_coord(c.x, r);
        let by = base_coord(c.y, r);
        let bz = base_coord(c.z, r);
        let lx = (bx - g.origin.0) as usize;
        let ly = (by - g.origin.1) as usize;
        let lz = (bz - g.origin.2) as usize;
        let n = side as usize;
        let mut i: usize = 0;
        while i < n
            invariant
                g.wf(),
                g.origin == g0.origin,
                g.size == g0.size,
                0 <= i <= n,
                n == side,
                side == 2 * r + 1,
                r == self.radius(),
                0 <= r <= 511,
                self.wf(),
                c.in_range(),
                g0.wf(),
                cube_frame(g0, r as int, c, bx as int, by as int, bz as int, lx as int, ly as int, lz as int),
                forall|x: int, y: int, z: int|
                    g0.holds(x, y, z) ==> #[trigger] g.at(x, y, z) == if lx <= x < lx + i {
                        stroked(g0, r as int, c, x, y, z)
                    } else {
                        g0.at(x, y, z)
                    },
            decreases n - i,
        {
            let mut j: usize = 0;
            while j < n
                invariant
                    g.wf(),
                    g.origin == g0.origin,
                    g.size == g0.size,
                    0 <= i < n,
                    0 <= j <= n,
                    n == side,
                    side == 2 * r + 1,
                    r == self.radius(),
                    0 <= r <= 511,
                    c.in_range(),
                    g0.wf(),
                    cube_frame(g0, r as int, c, bx as int, by as int, bz as int, lx as int, ly as int, lz as int),
                    forall|x: int, y: int, z: int|
                        g0.holds(x, y, z) ==> #[trigger] g.at(x, y, z) == if lx <= x < lx + i
                            || (x == lx + i && ly <= y < ly + j) {
                            stroked(g0, r as int, c, x, y, z)
                        } else {
                            g0.at(x, y, z)
                        },
                decreases n - j,
            {
                let mut k: usize = 0;
                while k < n
                    invariant
                        g.wf(),
                        g.origin == g0.origin,
                        g.size == g0.size,
                        0 <= i < n,
                        0 <= j < n,
                        0 <= k <= n,
                        n == side,
                        side == 2 * r + 1,
                        r == self.radius(),
                        0 <= r <= 511,
                        c.in_range(),
                        g0.wf(),
                        cube_frame(g0, r as int, c, bx as int, by as int, bz as int, lx as int, ly as int, lz as int),
                        forall|x: int, y: int, z: int|
                            g0.holds(x, y, z) ==> #[trigger] g.at(x, y, z) == if lx <= x < lx
                                + i || (x == lx + i && ly <= y < ly + j) || (x == lx + i && y
                                == ly + j && lz <= z < lz + k) {
                                stroked(g0, r as int, c, x, y, z)
                            } else {
                                g0.at(x, y, z)
                            },
                    decreases n - k,
                {
                    let dx = (bx + i as i64) * FIXED_ONE - c.x;
                    let dy = (by + j as i64) * FIXED_ONE - c.y;
                    let dz = (bz + k as i64) * FIXED_ONE - c.z;
                    assert(dx * dx <= 512_000 * 512_000) by (nonlinear_arith)
                        requires -512_000 <= dx <= 512_000;
                    assert(dy * dy <= 512_000 * 512_000) by (nonlinear_arith)
                        requires -512_000 <= dy <= 512_000;
                    assert(dz * dz <= 512_000 * 512_000) by (nonlinear_arith)
                        requires -512_000 <= dz <= 512_000;
                    assert(dx * dx >= 0 && dy * dy >= 0 && dz * dz >= 0) by (nonlinear_arith);
                    let d2 = dx * dx + dy * dy + dz * dz;
                    let x = lx + i;
                    let y = ly + j;
                    let z = lz + k;
                    let ghost before = *g;
                    assert(side * side <= 1024 * 1024) by (nonlinear_arith)
                        requires 1 <= side <= 1024;
                    assert(d2 == distance_sq(bx + i, by + j, bz + k, c));
                    if d2 <= side * side * FIXED_SQ {
                        let delta = falloff(d2, side);
                        let v = g.get(x, y, z);
                        let nv: i32 = if v as i64 > i32::MAX as i64 - delta {
                            i32::MAX
                        } else {
                            (v as i64 + delta) as i32
                        };
                        g.set(x, y, z, nv);
                        proof { lemma_flat_bounds(g0.size as int, x as int, y as int, z as int); }
                    }
                    proof {
                        assert(brush_delta(r as int, c, g0.origin.0 + x, g0.origin.1 + y,
                            g0.origin.2 + z) == if d2 <= side * side * FIXED_SQ {
                            falloff_spec(d2 as int, side as int)
                        } else {
                            0
                        });
                        assert forall|x2: int, y2: int, z2: int|
                            g0.holds(x2, y2, z2) implies #[trigger] g.at(x2, y2, z2) == if lx
                                <= x2 < lx + i || (x2 == lx + i && ly <= y2 < ly + j) || (x2
                                == lx + i && y2 == ly + j && lz <= z2 < lz + k + 1) {
                                stroked(g0, r as int, c, x2, y2, z2)
                            } else {
                                g0.at(x2, y2, z2)
                            } by {
                            assert(before.at(x2, y2, z2) == if lx <= x2 < lx + i || (x2 == lx
                                + i && ly <= y2 < ly + j) || (x2 == lx + i && y2 == ly + j && lz
                                <= z2 < lz + k) {
                                stroked(g0, r as int, c, x2, y2, z2)
                            } else {
                                g0.at(x2, y2, z2)
                            });
                            if x2 != x || y2 != y || z2 != z {
                                let s = g0.size as int;
                                lemma_flat_bounds(s, x2, y2, z2);
                                if flat(s, x2, y2, z2) == flat(s, x as int, y as int, z as int) {
                                    lemma_flat_injective(s, x2, y2, z2, x as int, y as int, z as int);
                                }
                            }
                        }
                    }
                    k = k + 1;
                }
                j = j + 1;
            }
            i = i + 1;
        }
        proof {
            assert forall|x: int, y: int, z: int|
                g0.holds(x, y, z) implies #[trigger] g.at(x, y, z) == stroked(
                    g0,
                    r as int,
                    c,
                    x,
                    y,
                    z,
                ) by {
                if !(lx <= x < lx + n && ly <= y < ly + n && lz <= z < lz + n) {
                    assert(brush_delta(r as int, c, g0.origin.0 + x, g0.origin.1 + y,
                        g0.origin.2 + z) == 0);
                }
            }
        }
    }
}

impl Default for Brush {
    /// The default brush has radius 1.
    fn default() -> (b: Brush)
        ensures
            b.wf(),
            b.radius() == 1,
    {
        Brush { size: 1 }
    }
}

/// Within the brush cube, a sample at the stroke's centre gains 4, and one whose squared
/// distance to the centre equals the cube's edge squared gains 0 (integer truncation).
pub proof fn lemma_falloff_centre_and_edge(r: int, c: Point, wx: int, wy: int, wz: int)
    requires
        0 <= r,
        in_cube_axis(wx, c.x as int, r),
        in_cube_axis(wy, c.y as int, r),
        in_cube_axis(wz, c.z as int, r),
    ensures
        distance_sq(wx, wy, wz, c) == 0 ==> brush_delta(r, c, wx, wy, wz) == 4,
        distance_sq(wx, wy, wz, c) == (2 * r + 1) * (2 * r + 1) * FIXED_SQ ==> brush_delta(
            r,
            c,
            wx,
            wy,
            wz,
        ) == 0,
{
    let side = 2 * r + 1;
    let s2 = side * side;
    assert(s2 >= 1) by (nonlinear_arith)
        requires s2 == side * side, side >= 1;
    assert(s2 * FIXED_SQ >= 0) by (nonlinear_arith)
        requires s2 >= 1;
    vstd::arithmetic::div_mod::lemma_div_multiples_vanish(s2, FIXED_SQ as int);
    assert(s2 * FIXED_SQ == FIXED_SQ * s2) by (nonlinear_arith);
    vstd::arithmetic::div_mod::lemma_div_multiples_vanish(4, s2);
    assert(4 * s2 == s2 * 4) by (nonlinear_arith);
    assert(0int / (s2 as int) == 0) by (nonlinear_arith)
        requires s2 >= 1;
}

/// The falloff never subtracts: within the affected region it lies in `[0, 4]`.
pub proof fn lemma_delta_bounds(r: int, c: Point, wx: int, wy: int, wz: int)
    requires
        0 <= r,
    ensures
        0 <= brush_delta(r, c, wx, wy, wz) <= 4,
{
    let side = 2 * r + 1;
    let d2 = distance_sq(wx, wy, wz, c);
    if brush_delta(r, c, wx, wy, wz) != 0 {
        let dx = wx * FIXED_ONE - c.x;
        let dy = wy * FIXED_ONE - c.y;
        let dz = wz * FIXED_ONE - c.z;
        assert(dx * dx >= 0 && dy * dy >= 0 && dz * dz >= 0) by (nonlinear_arith);
        let q = d2 / FIXED_SQ as int;
        assert(0 <= q <= side * side) by (nonlinear_arith)
            requires q == d2 / 1_000_000int, 0 <= d2 <= side * side * 1_000_000int;
        assert(0 <= (4 * q) / (side * side) <= 4) by (nonlinear_arith)
            requires 0 <= q <= side * side, side >= 1;
    }
}

/// Holding the brush still for `n` strokes adds `n` times the falloff to each sample, as
/// long as that sum stays within `i32`: density accumulates linearly, it does not level off.
pub proof fn lemma_strokes_accumulate(gs: Seq<DensityGrid>, r: int, c: Point, n: int)
    requires
        0 <= r,
        0 <= n < gs.len(),
        forall|i: int| 0 <= i < gs.len() - 1 ==> is_stroke(#[trigger] gs[i], gs[i + 1], r, c),
    ensures
        gs[n].origin == gs[0].origin,
        gs[n].size == gs[0].size,
        forall|x: int, y: int, z: int|
            gs[0].holds(x, y, z) && gs[0].at(x, y, z) + n * brush_delta(
                r,
                c,
                gs[0].origin.0 + x,
                gs[0].origin.1 + y,
                gs[0].origin.2 + z,
            ) <= i32::MAX ==> #[trigger] gs[n].at(x, y, z) == gs[0].at(x, y, z) + n * brush_delta(
                r,
                c,
                gs[0].origin.0 + x,
                gs[0].origin.1 + y,
                gs[0].origin.2 + z,
            ),
    decreases n,
{
    if n > 0 {
        lemma_strokes_accumulate(gs, r, c, n - 1);
        assert(is_stroke(gs[n - 1], gs[n], r, c));
        assert forall|x: int, y: int, z: int|
            gs[0].holds(x, y, z) && gs[0].at(x, y, z) + n * brush_delta(
                r,
                c,
                gs[0].origin.0 + x,
                gs[0].origin.1 + y,
                gs[0].origin.2 + z,
            ) <= i32::MAX implies #[trigger] gs[n].at(x, y, z) == gs[0].at(x, y, z) + n
            * brush_delta(r, c, gs[0].origin.0 + x, gs[0].origin.1 + y, gs[0].origin.2 + z) by {
            let d = brush_delta(r, c, gs[0].origin.0 + x, gs[0].origin.1 + y, gs[0].origin.2 + z);
            lemma_delta_bounds(r, c, gs[0].origin.0 + x, gs[0].origin.1 + y, gs[0].origin.2 + z);
            assert(n * d == (n - 1) * d + d) by (nonlinear_arith);
            assert((n - 1) * d >= 0) by (nonlinear_arith)
                requires n >= 1, d >= 0;
            assert(gs[n - 1].holds(x, y, z));
            assert(gs[n - 1].at(x, y, z) == gs[0].at(x, y, z) + (n - 1) * d);
        }
    }
}

/// One frame of brushing: while the brush action is held and a cursor exists, strokes the
/// brush at the cursor position. Returns whether the density changed, which marks the
/// terrain for re-meshing; otherwise `grid` is left as it was.
pub fn apply(brush: &Brush, held: bool, cursor: &Option<State>, grid: &mut DensityGrid) -> (changed:
    bool)
    requires
        brush.wf(),
        old(grid).wf(),
        held ==> (cursor matches Some(s) ==> s.position.in_range() && cube_fits(
            *old(grid),
            brush.radius(),
            s.position,
        )),
    ensures
        changed == (held && cursor is Some),
        match cursor {
            Some(s) if held => is_stroke(*old(grid), *final(grid), brush.radius(), s.position),
            _ => *final(grid) == *old(grid),
        },
{
    if !held {
        return false;
    }
    match cursor {
        Some(s) => {
            brush.stroke(s.position, grid);
            true
        },
        None => false,
    }
}

} // verus!
