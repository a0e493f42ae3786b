//! Fixed-point points, rounding division and voxel snapping.
use vstd::prelude::*;

verus! {

/// Number of fixed-point steps in one world unit.
pub const FIXED_ONE: i64 = 1000;

/// Largest magnitude of a coordinate that the library accepts, in fixed-point steps.
pub const COORD_LIMIT: i64 = 1_000_000_000_000;

/// A point in world space, each coordinate in fixed-point steps.
#[derive(Clone, Copy, Debug, PartialEq, Eq, Structural)]
pub struct Point {
    pub x: i64,
    pub y: i64,
    pub z: i64,
}

impl Point {
    pub open spec fn in_range(self) -> bool {
        -COORD_LIMIT <= self.x <= COORD_LIMIT && -COORD_LIMIT <= self.y <= COORD_LIMIT
            && -COORD_LIMIT <= self.z <= COORD_LIMIT
    }

    /// Whether every coordinate is within `COORD_LIMIT`.
    pub fn is_in_range(&self) -> (r: bool)
        ensures
            r == self.in_range(),
    {
        -COORD_LIMIT <= self.x && self.x <= COORD_LIMIT && -COORD_LIMIT <= self.y && self.y
            <= COORD_LIMIT && -COORD_LIMIT <= self.z && self.z <= COORD_LIMIT
    }

    pub fn new(x: i64, y: i64, z: i64) -> (r: Point)
        ensures
            r.x == x && r.y == y && r.z == z,
    {
        Point { x, y, z }
    }
}

/// `a / b` rounded towards negative infinity (spec division on `int` floors for `b > 0`).
pub fn floor_div(a: i64, b: i64) -> (r: i64)
    requires
        b > 0,
        a > i64::MIN,
    ensures
        r == a as int / b as int,
{
    if a >= 0 {
        a / b
    } else {
        let n: i64 = -a;
        let q: i64 = n / b;
        let m: i64 = n % b;
        proof {
            vstd::arithmetic::div_mod::lemma_fundamental_div_mod(n as int, b as int);
            vstd::arithmetic::div_mod::lemma_fundamental_div_mod(a as int, b as int);
            assert(0 <= (a as int) % (b as int) < b);
            if m == 0 {
                assert(a as int == -q * b) by (nonlinear_arith)
                    requires n == q * b + m, m == 0, a == -n;
                vstd::arithmetic::div_mod::lemma_div_multiples_vanish(-q as int, b as int);
            } else {
                assert(a as int == (-q - 1) * b + (b - m)) by (nonlinear_arith)
                    requires n == q * b + m, a == -n;
                vstd::arithmetic::div_mod::lemma_fundamental_div_mod_converse(
                    a as int, b as int, -q - 1, b - m);
            }
        }
        if m == 0 { -q } else { -q - 1 }
    }
}

/// Centre of the voxel cell that holds `v`, along one axis.
pub open spec fn snap_axis(v: int, voxel: int) -> int {
    (v / voxel) * voxel + voxel / 2
}

/// Snaps one coordinate to the centre of its voxel cell of edge `voxel`.
pub fn snap_coord(v: i64, voxel: i64) -> (r: i64)
    requires
        -COORD_LIMIT <= v <= COORD_LIMIT,
        0 < voxel <= COORD_LIMIT,
    ensures
        r == snap_axis(v as int, voxel as int),
{
    let q = floor_div(v, voxel);
    proof {
        vstd::arithmetic::div_mod::lemma_fundamental_div_mod(v as int, voxel as int);
        assert(q * voxel <= v as int);
        assert(q * voxel > v - voxel);
    }
    q * voxel + voxel / 2
}

/// The centre of the voxel cell that holds `p`, for cells of edge `voxel` on each axis.
pub open spec fn snap_spec(p: Point, voxel: int) -> Point {
    Point {
        x: snap_axis(p.x as int, voxel) as i64,
        y: snap_axis(p.y as int, voxel) as i64,
        z: snap_axis(p.z as int, voxel) as i64,
    }
}

/// Snaps a point to the centre of its containing voxel cell:
/// per axis, `floor(v / voxel) * voxel + voxel / 2`.
pub fn snap(p: Point, voxel: i64) -> (r: Point)
    requires
        p.in_range(),
        0 < voxel <= COORD_LIMIT,
    ensures
        r == snap_spec(p, voxel as int),
        r.x == snap_axis(p.x as int, voxel as int),
        r.y == snap_axis(p.y as int, voxel as int),
        r.z == snap_axis(p.z as int, voxel as int),
{
    Point { x: snap_coord(p.x, voxel), y: snap_coord(p.y, voxel), z: snap_coord(p.z, voxel) }
}

} // verus!
