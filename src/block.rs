//! Terrain blocks, rays, and trilinear density sampling inside a block.
use vstd::prelude::*;
use crate::density::DensityGrid;
use crate::geometry::{floor_div, Point, FIXED_ONE};

verus! {

/// Largest voxel edge, in world units.
pub const MAX_VOXEL_SIZE: i64 = 1000;

/// Largest magnitude of a block's lower corner, in world units.
pub const BLOCK_LIMIT: i64 = 998_000_000;

/// Largest magnitude of a ray parameter, in fixed-point steps.
pub const PARAM_LIMIT: i64 = 1_000_000_000_000;

/// Largest magnitude of a density sample.
pub const SAMPLE_LIMIT: i64 = 0x8000_0000;

/// A ray `origin + direction * t`; `t` and every coordinate are in fixed-point steps, and
/// each component of `direction` is at most one world unit (`FIXED_ONE`) per unit of `t`.
#[derive(Clone, Copy, Debug, PartialEq, Eq, Structural)]
pub struct Ray {
    pub origin: Point,
    pub direction: Point,
}

/// One coordinate of a ray at parameter `t`, rounded towards negative infinity.
pub open spec fn ray_axis(o: int, d: int, t: int) -> int {
    o + (d * t) / FIXED_ONE as int
}

impl Ray {
    pub open spec fn wf(&self) -> bool {
        &&& self.origin.in_range()
        &&& -FIXED_ONE <= self.direction.x <= FIXED_ONE
        &&& -FIXED_ONE <= self.direction.y <= FIXED_ONE
        &&& -FIXED_ONE <= self.direction.z <= FIXED_ONE
    }

    /// The point of the ray at parameter `t`.
    pub open spec fn at(&self, t: int) -> (int, int, int) {
        (
            ray_axis(self.origin.x as int, self.direction.x as int, t),
            ray_axis(self.origin.y as int, self.direction.y as int, t),
            ray_axis(self.origin.z as int, self.direction.z as int, t),
        )
    }

    /// Whether the origin is within range and each direction component is at most
    /// `FIXED_ONE` in magnitude.
    pub fn is_well_formed(&self) -> (r: bool)
        ensures
            r == self.wf(),
    {
        self.origin.is_in_range() && -FIXED_ONE <= self.direction.x && self.direction.x
            <= FIXED_ONE && -FIXED_ONE <= self.direction.y && self.direction.y <= FIXED_ONE
            && -FIXED_ONE <= self.direction.z && self.direction.z <= FIXED_ONE
    }

    /// The point of the ray at parameter `t`.
    pub fn point_at(&self, t: i64) -> (p: Point)
        requires
            self.wf(),
            -PARAM_LIMIT <= t <= PARAM_LIMIT,
        ensures
            (p.x as int, p.y as int, p.z as int) == self.at(t as int),
    {
        Point {
            x: self.origin.x + axis_offset(self.direction.x, t),
            y: self.origin.y + axis_offset(self.direction.y, t),
            z: self.origin.z + axis_offset(self.direction.z, t),
        }
    }
}

/// `floor(d * t / FIXED_ONE)` for one axis of a ray.
fn axis_offset(d: i64, t: i64) -> (r: i64)
    requires
        -FIXED_ONE <= d <= FIXED_ONE,
        -PARAM_LIMIT <= t <= PARAM_LIMIT,
    ensures
        r == (d * t) / FIXED_ONE as int,
        -PARAM_LIMIT <= r <= PARAM_LIMIT,
{
    assert(-PARAM_LIMIT * FIXED_ONE <= d * t <= PARAM_LIMIT * FIXED_ONE) by (nonlinear_arith)
        requires
            -FIXED_ONE <= d <= FIXED_ONE,
            -PARAM_LIMIT <= t <= PARAM_LIMIT,
    ;
    let r = floor_div(d * t, FIXED_ONE);
    proof {
        vstd::arithmetic::div_mod::lemma_fundamental_div_mod(d * t, FIXED_ONE as int);
    }
    r
}

/// A cubic terrain block: `density.size - 1` voxels of edge `voxel_size` (world units) per
/// axis, whose sample `(i, j, k)` sits at `bound_min + (i, j, k) * voxel_size`.
pub struct Block {
    /// Position of the block in the terrain's block grid.
    pub position: (i32, i32, i32),
    /// Lower corner, in world units.
    pub bound_min: (i64, i64, i64),
    /// Voxel edge, in world units.
    pub voxel_size: i64,
    /// Density samples at the voxel corners.
    pub density: DensityGrid,
}

/// Linear interpolation from `a` to `b` at offset `f` of `d`, scaled by `d`.
pub open spec fn lerp(a: int, b: int, f: int, d: int) -> int {
    a * (d - f) + b * f
}

/// Index of the cell that holds local coordinate `l` along one axis (the last cell for a
/// point on the upper face).
pub open spec fn cell_of(l: int, d: int, cells: int) -> int {
    if l / d >= cells {
        cells - 1
    } else {
        l / d
    }
}

impl Block {
    pub open spec fn wf(&self) -> bool {
        &&& self.density.wf()
        &&& self.density.size >= 2
        &&& 1 <= self.voxel_size <= MAX_VOXEL_SIZE
        &&& self.density.origin == self.bound_min
        &&& -BLOCK_LIMIT <= self.bound_min.0 <= BLOCK_LIMIT
        &&& -BLOCK_LIMIT <= self.bound_min.1 <= BLOCK_LIMIT
        &&& -BLOCK_LIMIT <= self.bound_min.2 <= BLOCK_LIMIT
    }

    /// Number of voxels along an edge.
    pub open spec fn cells(&self) -> int {
        self.density.size - 1
    }

    /// Voxel edge in fixed-point steps: the denominator of the interpolation weights.
    pub open spec fn edge(&self) -> int {
        self.voxel_size * FIXED_ONE
    }

    /// The denominator of an interpolated density: `edge³`.
    pub open spec fn denominator(&self) -> int {
        self.edge() * self.edge() * self.edge()
    }

    /// Coordinate `v` (fixed-point) relative to the block's lower corner on axis `lo`.
    pub open spec fn local(lo: int, v: int) -> int {
        v - lo * FIXED_ONE
    }

    pub open spec fn contains_axis(&self, lo: int, v: int) -> bool {
        0 <= Self::local(lo, v) <= self.cells() * self.edge()
    }

    /// Whether a fixed-point point lies in the block, faces included.
    pub open spec fn contains(&self, p: (int, int, int)) -> bool {
        &&& self.contains_axis(self.bound_min.0 as int, p.0)
        &&& self.contains_axis(self.bound_min.1 as int, p.1)
        &&& self.contains_axis(self.bound_min.2 as int, p.2)
    }

    /// Trilinear interpolation of the 8 corners of cell `(i, j, k)` at offsets
    /// `(fx, fy, fz)` into it, scaled by `denominator()`: along x, then y, then z.
    pub open spec fn trilinear(&self, i: int, j: int, k: int, fx: int, fy: int, fz: int) -> int {
        let d = self.edge();
        let g = self.density;
        let c00 = lerp(g.at(i, j, k), g.at(i + 1, j, k), fx, d);
        let c10 = lerp(g.at(i, j + 1, k), g.at(i + 1, j + 1, k), fx, d);
        let c01 = lerp(g.at(i, j, k + 1), g.at(i + 1, j, k + 1), fx, d);
        let c11 = lerp(g.at(i, j + 1, k + 1), g.at(i + 1, j + 1, k + 1), fx, d);
        lerp(lerp(c00, c10, fy, d), lerp(c01, c11, fy, d), fz, d)
    }

    /// The density at fixed-point point `p` inside the block, as a numerator over
    /// `denominator()`: trilinear interpolation in the cell that holds `p` (the last cell
    /// on an axis for a point on the block's upper face).
    pub open spec fn density_num(&self, p: (int, int, int)) -> int {
        let d = self.edge();
        let lx = Self::local(self.bound_min.0 as int, p.0);
        let ly = Self::local(self.bound_min.1 as int, p.1);
        let lz = Self::local(self.bound_min.2 as int, p.2);
        let i = cell_of(lx, d, self.cells());
        let j = cell_of(ly, d, self.cells());
        let k = cell_of(lz, d, self.cells());
        self.trilinear(i, j, k, lx - i * d, ly - j * d, lz - k * d)
    }
}

/// Largest magnitude of an interpolated value before the last axis.
pub const LERP_LIMIT: i128 = 0x8000_0000 * 1_000_000_000_000;

/// Interpolating values bounded by `b` over an edge `d` gives values bounded by `b * d`.
proof fn lemma_lerp_bound(a: int, c: int, f: int, d: int, b: int)
    requires
        -b <= a <= b,
        -b <= c <= b,
        0 <= f <= d,
    ensures
        -(b * d) <= lerp(a, c, f, d) <= b * d,
{
    assert(-b * (d - f) <= a * (d - f) <= b * (d - f)) by (nonlinear_arith)
        requires -b <= a <= b, 0 <= d - f;
    assert(-b * f <= c * f <= b * f) by (nonlinear_arith)
        requires -b <= c <= b, 0 <= f;
    assert(b * (d - f) + b * f == b * d) by (nonlinear_arith);
    assert(-b * (d - f) + -b * f == -(b * d)) by (nonlinear_arith);
}

/// One interpolation step in 128 bits.
fn lerp_exec(a: i128, c: i128, f: i64, d: i64, bound: Ghost<int>) -> (r: i128)
    requires
        0 <= bound@ <= LERP_LIMIT,
        -bound@ <= a <= bound@,
        -bound@ <= c <= bound@,
        0 <= f <= d <= 1_000_000,
    ensures
        r == lerp(a as int, c as int, f as int, d as int),
        -(bound@ * d) <= r <= bound@ * d,
{
    let e: i128 = (d - f) as i128;
    let g: i128 = f as i128;
    proof {
        lemma_lerp_bound(a as int, c as int, f as int, d as int, bound@);
        let b = bound@;
        assert(-(b * 1_000_000) <= a * e <= b * 1_000_000) by (nonlinear_arith)
            requires -b <= a <= b, 0 <= e <= 1_000_000, 0 <= b;
        assert(-(b * 1_000_000) <= c * g <= b * 1_000_000) by (nonlinear_arith)
            requires -b <= c <= b, 0 <= g <= 1_000_000, 0 <= b;
        assert(b * 1_000_000 <= LERP_LIMIT * 1_000_000) by (nonlinear_arith)
            requires 0 <= b <= LERP_LIMIT;
    }
    a * e + c * g
}

impl Block {
    /// Cell index and offset into the cell along one axis.
    fn cell(&self, l: i64) -> (r: (usize, i64))
        requires
            self.wf(),
            0 <= l <= self.cells() * self.edge(),
        ensures
            r.0 == cell_of(l as int, self.edge(), self.cells()),
            r.1 == l - r.0 * self.edge(),
            0 <= r.0 < self.cells(),
            0 <= r.1 <= self.edge(),
    {
        let d = self.voxel_size * FIXED_ONE;
        let cells = self.density.size - 1;
        let q = l / d;
        proof {
            vstd::arithmetic::div_mod::lemma_fundamental_div_mod(l as int, d as int);
            assert(q <= cells) by (nonlinear_arith)
                requires q == l as int / d as int, 0 <= l <= cells * d, d > 0;
        }
        let i: usize = if q >= cells as i64 { cells - 1 } else { q as usize };
        proof {
            if q >= cells {
                assert(l - (cells - 1) * d <= d) by (nonlinear_arith)
                    requires l <= cells * d;
                assert(l - (cells - 1) * d >= 0) by (nonlinear_arith)
                    requires q * d <= l, q >= cells, cells >= 1, d > 0;
            } else {
                vstd::arithmetic::div_mod::lemma_mod_pos_bound(l as int, d as int);
                vstd::arithmetic::mul::lemma_mul_is_commutative(q as int, d as int);
            }
            assert(i * d <= 1023 * 1_000_000) by (nonlinear_arith)
                requires i <= 1023, 0 < d <= 1_000_000;
        }
        (i, l - (i as i64) * d)
    }

    /// Whether the block is well formed.
    pub fn is_well_formed(&self) -> (r: bool)
        ensures
            r == self.wf(),
    {
        self.density.is_well_formed() && self.density.size >= 2 && 1 <= self.voxel_size
            && self.voxel_size <= MAX_VOXEL_SIZE && self.density.origin.0 == self.bound_min.0
            && self.density.origin.1 == self.bound_min.1 && self.density.origin.2
            == self.bound_min.2 && -BLOCK_LIMIT <= self.bound_min.0 && self.bound_min.0
            <= BLOCK_LIMIT && -BLOCK_LIMIT <= self.bound_min.1 && self.bound_min.1 <= BLOCK_LIMIT
            && -BLOCK_LIMIT <= self.bound_min.2 && self.bound_min.2 <= BLOCK_LIMIT
    }

    /// Whether the block holds the fixed-point point `p`, faces included.
    pub fn holds(&self, p: Point) -> (r: bool)
        requires
            self.wf(),
        ensures
            r == self.contains((p.x as int, p.y as int, p.z as int)),
    {
        proof {
            assert(self.cells() * self.edge() <= 1023 * 1_000_000) by (nonlinear_arith)
                requires 0 <= self.cells() <= 1023, 0 < self.edge() <= 1_000_000;
        }
        let extent = ((self.density.size - 1) as i64) * (self.voxel_size * FIXED_ONE);
        let lx = p.x as i128 - (self.bound_min.0 * FIXED_ONE) as i128;
        let ly = p.y as i128 - (self.bound_min.1 * FIXED_ONE) as i128;
        let lz = p.z as i128 - (self.bound_min.2 * FIXED_ONE) as i128;
        0 <= lx && lx <= extent as i128 && 0 <= ly && ly <= extent as i128 && 0 <= lz && lz
            <= extent as i128
    }

    /// The density at the fixed-point point `p`, as a numerator over `denominator()`.
    pub fn density_at(&self, p: Point) -> (r: i128)
        requires
            self.wf(),
            self.contains((p.x as int, p.y as int, p.z as int)),
        ensures
            r == self.density_num((p.x as int, p.y as int, p.z as int)),
            -(LERP_LIMIT * 1_000_000) <= r <= LERP_LIMIT * 1_000_000,
    {
        let d = self.voxel_size * FIXED_ONE;
        proof {
            assert(self.cells() * self.edge() <= 1023 * 1_000_000) by (nonlinear_arith)
                requires 0 <= self.cells() <= 1023, 0 < self.edge() <= 1_000_000;
        }
        let (i, fx) = self.cell(p.x - self.bound_min.0 * FIXED_ONE);
        let (j, fy) = self.cell(p.y - self.bound_min.1 * FIXED_ONE);
        let (k, fz) = self.cell(p.z - self.bound_min.2 * FIXED_ONE);
        let g = &self.density;
        let ghost b0: int = SAMPLE_LIMIT as int;
        let ghost b1: int = b0 * d;
        let ghost b2: int = b1 * d;
        proof {
            assert(b1 <= 0x8000_0000 * 1_000_000) by (nonlinear_arith)
                requires b1 == b0 * d, b0 == 0x8000_0000, 0 < d <= 1_000_000;
            assert(b2 <= LERP_LIMIT) by (nonlinear_arith)
                requires b2 == b1 * d, 0 <= b1 <= 0x8000_0000 * 1_000_000, 0 < d <= 1_000_000;
            assert(0 <= b1 && 0 <= b2) by (nonlinear_arith)
                requires b1 == b0 * d, b2 == b1 * d, b0 > 0, d > 0;
            assert(b2 * d <= LERP_LIMIT * 1_000_000) by (nonlinear_arith)
                requires 0 <= b2 <= LERP_LIMIT, 0 < d <= 1_000_000;
        }
        let c00 = lerp_exec(g.get(i, j, k) as i128, g.get(i + 1, j, k) as i128, fx, d, Ghost(b0));
        let c10 = lerp_exec(g.get(i, j + 1, k) as i128, g.get(i + 1, j + 1, k) as i128, fx, d, Ghost(b0));
        let c01 = lerp_exec(g.get(i, j, k + 1) as i128, g.get(i + 1, j, k + 1) as i128, fx, d, Ghost(b0));
        let c11 = lerp_exec(g.get(i, j + 1, k + 1) as i128, g.get(i + 1, j + 1, k + 1) as i128, fx, d, Ghost(b0));
        let c0 = lerp_exec(c00, c10, fy, d, Ghost(b1));
        let c1 = lerp_exec(c01, c11, fy, d, Ghost(b1));
        lerp_exec(c0, c1, fz, d, Ghost(b2))
    }
}

} // verus!

verus! {

/// Moving along a ray, each coordinate between two parameters lies between its values there.
pub proof fn lemma_ray_axis_between(o: int, d: int, lo: int, t: int, hi: int)
    requires
        lo <= t <= hi,
    ensures
        ray_axis(o, d, lo) <= ray_axis(o, d, t) <= ray_axis(o, d, hi) || ray_axis(o, d, hi)
            <= ray_axis(o, d, t) <= ray_axis(o, d, lo),
{
    if d >= 0 {
        vstd::arithmetic::mul::lemma_mul_inequality(lo, t, d);
        vstd::arithmetic::mul::lemma_mul_inequality(t, hi, d);
        vstd::arithmetic::mul::lemma_mul_is_commutative(lo, d);
        vstd::arithmetic::mul::lemma_mul_is_commutative(t, d);
        vstd::arithmetic::mul::lemma_mul_is_commutative(hi, d);
        vstd::arithmetic::div_mod::lemma_div_is_ordered(d * lo, d * t, FIXED_ONE as int);
        vstd::arithmetic::div_mod::lemma_div_is_ordered(d * t, d * hi, FIXED_ONE as int);
    } else {
        assert(d * hi <= d * t <= d * lo) by (nonlinear_arith)
            requires d < 0, lo <= t <= hi;
        vstd::arithmetic::div_mod::lemma_div_is_ordered(d * t, d * lo, FIXED_ONE as int);
        vstd::arithmetic::div_mod::lemma_div_is_ordered(d * hi, d * t, FIXED_ONE as int);
    }
}

/// A block holds every point of a ray between two parameters whose points it holds.
pub proof fn lemma_ray_inside(block: &Block, ray: &Ray, lo: int, t: int, hi: int)
    requires
        lo <= t <= hi,
        block.contains(ray.at(lo)),
        block.contains(ray.at(hi)),
    ensures
        block.contains(ray.at(t)),
{
    lemma_ray_axis_between(ray.origin.x as int, ray.direction.x as int, lo, t, hi);
    lemma_ray_axis_between(ray.origin.y as int, ray.direction.y as int, lo, t, hi);
    lemma_ray_axis_between(ray.origin.z as int, ray.direction.z as int, lo, t, hi);
}

} // verus!
