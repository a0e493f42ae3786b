//! The surface picker: bisection for a density sign change along a ray inside one block,
//! and the choice of the nearest crossing over all candidate blocks.
use vstd::prelude::*;
use crate::block::{lemma_ray_inside, lerp, Block, Ray, LERP_LIMIT, PARAM_LIMIT};
use crate::geometry::{snap, snap_spec, Point, FIXED_ONE};
use vstd::arithmetic::power2::{
    lemma2_to64, lemma2_to64_rest, lemma_pow2_strictly_increases, lemma_pow2_unfold, pow2,
};

verus! {

/// Number of halvings after which the bisection gives up.
pub const MAX_STEPS: u64 = 200;

/// Reciprocal of the tolerance: a crossing is a point whose density is below
/// `1 / TOLERANCE_INV` in magnitude.
pub const TOLERANCE_INV: i128 = 1000;

/// Cursor radius, in fixed-point steps, when voxel snapping is off.
pub const CURSOR_RADIUS: i64 = 32_000;

/// Cursor component: whether the cursor marker is shown.
pub struct Cursor {
    pub visible: bool,
}

impl Cursor {
    /// A visible cursor.
    pub fn new() -> (r: Cursor)
        ensures
            r.visible,
    {
        Cursor { visible: true }
    }
}

impl Default for Cursor {
    /// A visible cursor.
    fn default() -> (r: Cursor)
        ensures
            r.visible,
    {
        Cursor::new()
    }
}

/// The picked surface point of one frame.
#[derive(Clone, Copy, Debug)]
pub struct State {
    /// Intersection with the terrain (snapped to a voxel centre in voxel-select mode).
    pub position: Point,
    /// Grid position of the block holding the intersection.
    pub block: (i32, i32, i32),
    /// Cursor radius, in fixed-point steps.
    pub cursor_size: i64,
}

/// Magnitude of `v`.
pub open spec fn magnitude(v: int) -> int {
    if v < 0 {
        -v
    } else {
        v
    }
}

/// Whether density numerator `v` over `den` is below the tolerance in magnitude.
pub open spec fn near_zero(v: int, den: int) -> bool {
    TOLERANCE_INV * magnitude(v) < den
}

/// Whether `g` is negative at exactly one of `a` and `b`.
pub open spec fn sign_change(g: spec_fn(int) -> int, a: int, b: int) -> bool {
    (g(a) < 0) != (g(b) < 0)
}

/// Bisection on `[lo, hi]` for a crossing of `g / den`, after `count` halvings. A midpoint
/// within the tolerance is the crossing. Otherwise a bracket one step wide, or the step cap,
/// ends the search with none; else the midpoint replaces the end whose sign (negative or
/// not) it shares, so that a sign change between the ends stays bracketed.
pub open spec fn bisect(
    g: spec_fn(int) -> int,
    den: int,
    lo: int,
    hi: int,
    count: int,
) -> Option<int>
    decreases MAX_STEPS - count,
{
    let mid = lo + (hi - lo) / 2;
    if near_zero(g(mid), den) {
        Some(mid)
    } else if hi - lo <= 1 || count >= MAX_STEPS {
        None
    } else if (g(mid) < 0) == (g(lo) < 0) {
        bisect(g, den, mid, hi, count + 1)
    } else {
        bisect(g, den, lo, mid, count + 1)
    }
}

/// The search for a crossing of `g / den` in `[lo, hi]`: an end within the tolerance (the
/// lower end first) is the crossing, else bisection decides.
pub open spec fn search(g: spec_fn(int) -> int, den: int, lo: int, hi: int) -> Option<int> {
    if near_zero(g(lo), den) {
        Some(lo)
    } else if near_zero(g(hi), den) {
        Some(hi)
    } else {
        bisect(g, den, lo, hi, 0)
    }
}

/// Whether the field is finely resolved in `[lo, hi]`: wherever it changes sign between two
/// neighbouring parameters, one of the two lies within the tolerance.
pub open spec fn resolved(g: spec_fn(int) -> int, den: int, lo: int, hi: int) -> bool {
    forall|t: int|
        lo <= t < hi && #[trigger] sign_change(g, t, t + 1) ==> near_zero(g(t), den) || near_zero(
            g(t + 1),
            den,
        )
}

/// The density numerator of `block` along `ray`, as a function of the ray parameter.
pub open spec fn along(block: Block, ray: Ray) -> spec_fn(int) -> int {
    |t: int| block.density_num(ray.at(t))
}

/// Whether `[a, b]` is a parameter range that the bisection may search in `block`: both
/// ends map into the block (so, by convexity, does every parameter between).
pub open spec fn span_ok(block: Block, ray: Ray, a: int, b: int) -> bool {
    &&& -PARAM_LIMIT <= a <= b <= PARAM_LIMIT
    &&& block.contains(ray.at(a))
    &&& block.contains(ray.at(b))
}

/// A bisection result lies inside its bracket and meets the tolerance.
pub proof fn lemma_bisect_found(g: spec_fn(int) -> int, den: int, lo: int, hi: int, count: int)
    requires
        lo <= hi,
    ensures
        bisect(g, den, lo, hi, count) matches Some(t) ==> lo <= t <= hi && near_zero(g(t), den),
    decreases MAX_STEPS - count,
{
    let mid = lo + (hi - lo) / 2;
    if !near_zero(g(mid), den) && hi - lo > 1 && count < MAX_STEPS {
        if (g(mid) < 0) == (g(lo) < 0) {
            lemma_bisect_found(g, den, mid, hi, count + 1);
        } else {
            lemma_bisect_found(g, den, lo, mid, count + 1);
        }
    }
}

/// Bisection finds a crossing in every bracket no wider than `2^(MAX_STEPS - count)` whose
/// ends differ in sign and lie outside the tolerance, where the field is finely resolved.
pub proof fn lemma_bisect_converges(g: spec_fn(int) -> int, den: int, lo: int, hi: int, count: int)
    requires
        0 <= count <= MAX_STEPS,
        lo <= hi,
        hi - lo <= pow2((MAX_STEPS - count) as nat),
        sign_change(g, lo, hi),
        !near_zero(g(lo), den),
        !near_zero(g(hi), den),
        resolved(g, den, lo, hi),
    ensures
        bisect(g, den, lo, hi, count) is Some,
    decreases MAX_STEPS - count,
{
    let mid = lo + (hi - lo) / 2;
    if !near_zero(g(mid), den) {
        if hi - lo <= 1 {
            assert(sign_change(g, lo, lo + 1));
            assert(false);
        }
        if count >= MAX_STEPS {
            lemma2_to64();
            assert(false);
        }
        let m = (MAX_STEPS - count) as nat;
        lemma_pow2_unfold(m);
        if (g(mid) < 0) == (g(lo) < 0) {
            assert forall|t: int|
                mid <= t < hi && #[trigger] sign_change(g, t, t + 1) implies near_zero(g(t), den)
                || near_zero(g(t + 1), den) by {}
            lemma_bisect_converges(g, den, mid, hi, count + 1);
        } else {
            assert forall|t: int|
                lo <= t < mid && #[trigger] sign_change(g, t, t + 1) implies near_zero(g(t), den)
                || near_zero(g(t + 1), den) by {}
            lemma_bisect_converges(g, den, lo, mid, count + 1);
        }
    }
}

/// Every bracket that `binary_search` may be given fits the step cap.
proof fn lemma_span_within_cap(lo: int, hi: int)
    requires
        -PARAM_LIMIT <= lo <= hi <= PARAM_LIMIT,
    ensures
        hi - lo <= pow2(MAX_STEPS as nat),
{
    lemma2_to64_rest();
    lemma_pow2_strictly_increases(64, MAX_STEPS as nat);
}

/// A search result lies in the span and meets the tolerance; a span whose ends differ in
/// sign, in a finely resolved field, always yields one.
pub proof fn lemma_search(g: spec_fn(int) -> int, den: int, lo: int, hi: int)
    requires
        -PARAM_LIMIT <= lo <= hi <= PARAM_LIMIT,
    ensures
        search(g, den, lo, hi) matches Some(t) ==> lo <= t <= hi && near_zero(g(t), den),
        sign_change(g, lo, hi) && resolved(g, den, lo, hi) ==> search(g, den, lo, hi) is Some,
{
    lemma_bisect_found(g, den, lo, hi, 0);
    lemma_span_within_cap(lo, hi);
    if sign_change(g, lo, hi) && resolved(g, den, lo, hi) && !near_zero(g(lo), den)
        && !near_zero(g(hi), den) {
        lemma_bisect_converges(g, den, lo, hi, 0);
    }
}

/// Searches `[t_min, t_max]` along `ray` for a crossing of the zero density surface of
/// `block`: a point whose density is within the tolerance of zero. It tests both ends
/// first, then bisects, evaluating at most `MAX_STEPS + 1` midpoints. A span whose ends
/// differ in sign yields a crossing wherever the field is finely resolved.
pub fn binary_search(t_min: i64, t_max: i64, ray: &Ray, block: &Block) -> (r: Option<(Point, i64)>)
    requires
        block.wf(),
        ray.wf(),
        span_ok(*block, *ray, t_min as int, t_max as int),
    ensures
        match r {
            Some((p, t)) => {
                &&& search(along(*block, *ray), block.denominator(), t_min as int, t_max as int)
                    == Some(t as int)
                &&& (p.x as int, p.y as int, p.z as int) == ray.at(t as int)
                &&& t_min <= t <= t_max
                &&& near_zero(block.density_num(ray.at(t as int)), block.denominator())
            },
            None => search(along(*block, *ray), block.denominator(), t_min as int, t_max as int)
                is None,
        },
        sign_change(along(*block, *ray), t_min as int, t_max as int) && resolved(
            along(*block, *ray),
            block.denominator(),
            t_min as int,
            t_max as int,
        ) ==> r is Some,
{
    let ghost g = along(*block, *ray);
    let d: i128 = (block.voxel_size * FIXED_ONE) as i128;
    assert(d * d <= 1_000_000_000_000) by (nonlinear_arith)
        requires 0 < d <= 1_000_000;
    assert(d * d * d <= 1_000_000_000_000_000_000) by (nonlinear_arith)
        requires 0 < d <= 1_000_000, d * d <= 1_000_000_000_000;
    let den: i128 = d * d * d;
    proof {
        lemma_search(g, den as int, t_min as int, t_max as int);
    }
    let p_lo = ray.point_at(t_min);
    let mut v_lo = block.density_at(p_lo);
    let a_lo: i128 = if v_lo < 0 { -v_lo } else { v_lo };
    if TOLERANCE_INV * a_lo < den {
        return Some((p_lo, t_min));
    }
    let p_hi = ray.point_at(t_max);
    let v_hi = block.density_at(p_hi);
    let a_hi: i128 = if v_hi < 0 { -v_hi } else { v_hi };
    if TOLERANCE_INV * a_hi < den {
        return Some((p_hi, t_max));
    }
    let mut lo = t_min;
    let mut hi = t_max;
    let mut count: u64 = 0;
    loop
        invariant
            block.wf(),
            ray.wf(),
            span_ok(*block, *ray, t_min as int, t_max as int),
            g == along(*block, *ray),
            den == block.denominator(),
            t_min <= lo <= hi <= t_max,
            v_lo == g(lo as int),
            -(LERP_LIMIT * 1_000_000) <= v_lo <= LERP_LIMIT * 1_000_000,
            count <= MAX_STEPS,
            sign_change(g, t_min as int, t_max as int) && resolved(
                g,
                den as int,
                t_min as int,
                t_max as int,
            ) ==> search(g, den as int, t_min as int, t_max as int) is Some,
            search(g, den as int, t_min as int, t_max as int) == bisect(
                g,
                den as int,
                lo as int,
                hi as int,
                count as int,
            ),
        decreases MAX_STEPS - count,
    {
        let mid = lo + (hi - lo) / 2;
        proof {
            lemma_ray_inside(block, ray, t_min as int, mid as int, t_max as int);
        }
        let p = ray.point_at(mid);
        let v = block.density_at(p);
        let a: i128 = if v < 0 { -v } else { v };
        if TOLERANCE_INV * a < den {
            return Some((p, mid));
        }
        if hi - lo <= 1 || count >= MAX_STEPS {
            return None;
        }
        if (v < 0) == (v_lo < 0) {
            lo = mid;
            v_lo = v;
        } else {
            hi = mid;
        }
        count = count + 1;
    }
}

/// The density of the plane `y = h` (fixed-point) along a ray: `y(t) - h`, in fixed-point
/// steps, so that its value in world units is the numerator over `FIXED_ONE`.
pub open spec fn plane_along(ray: Ray, h: int) -> spec_fn(int) -> int {
    |t: int| ray.at(t).1 - h
}

/// Along any ray, the height changes by at most one fixed-point step per unit of `t`.
proof fn lemma_height_step(ray: Ray, t: int)
    requires
        ray.wf(),
    ensures
        -1 <= ray.at(t + 1).1 - ray.at(t).1 <= 1,
{
    let d = ray.direction.y as int;
    let q = (d * t) / FIXED_ONE as int;
    let r = (d * t) % FIXED_ONE as int;
    assert(d * (t + 1) == d * t + d) by (nonlinear_arith);
    vstd::arithmetic::div_mod::lemma_div_is_ordered(d * t + d, d * t + FIXED_ONE, FIXED_ONE as int);
    vstd::arithmetic::div_mod::lemma_div_is_ordered(d * t - FIXED_ONE, d * t + d, FIXED_ONE as int);
    vstd::arithmetic::div_mod::lemma_fundamental_div_mod(d * t, FIXED_ONE as int);
    vstd::arithmetic::div_mod::lemma_mod_bound(d * t, FIXED_ONE as int);
    vstd::arithmetic::div_mod::lemma_fundamental_div_mod_converse(
        d * t + FIXED_ONE,
        FIXED_ONE as int,
        q + 1,
        r,
    );
    vstd::arithmetic::div_mod::lemma_fundamental_div_mod_converse(
        d * t - FIXED_ONE,
        FIXED_ONE as int,
        q - 1,
        r,
    );
}

/// Whether the span `[lo, hi]` of a ray reaches the plane `y = h`: its ends lie on opposite
/// sides of the plane or on it.
pub open spec fn reaches_plane(ray: Ray, h: int, lo: int, hi: int) -> bool {
    ||| ray.at(lo).1 <= h <= ray.at(hi).1
    ||| ray.at(hi).1 <= h <= ray.at(lo).1
}

/// Searching the plane `y = h` along a ray, rising or falling, over a span that reaches the
/// plane (an end on the plane included) finds within the step cap a point on the plane:
/// `|y - h| < 0.001` world units, in fact `y == h` at fixed-point resolution.
pub proof fn lemma_plane_crossing(ray: Ray, h: int, lo: int, hi: int)
    requires
        ray.wf(),
        -PARAM_LIMIT <= lo <= hi <= PARAM_LIMIT,
        reaches_plane(ray, h, lo, hi),
    ensures
        search(plane_along(ray, h), FIXED_ONE as int, lo, hi) matches Some(t) && lo <= t <= hi
            && ray.at(t).1 == h && TOLERANCE_INV * magnitude(ray.at(t).1 - h) < FIXED_ONE,
{
    let g = plane_along(ray, h);
    let den = FIXED_ONE as int;
    assert forall|t: int| lo <= t < hi && #[trigger] sign_change(g, t, t + 1) implies near_zero(
        g(t),
        den,
    ) || near_zero(g(t + 1), den) by {
        lemma_height_step(ray, t);
    }
    lemma_search(g, den, lo, hi);
}

/// Scaling a field by a positive factor, and the tolerance's denominator with it, leaves
/// bisection unchanged.
pub proof fn lemma_bisect_scale(
    g1: spec_fn(int) -> int,
    d1: int,
    g2: spec_fn(int) -> int,
    d2: int,
    m: int,
    lo: int,
    hi: int,
    count: int,
)
    requires
        lo <= hi,
        m > 0,
        d1 == m * d2,
        forall|t: int| lo <= t <= hi ==> #[trigger] g1(t) == m * g2(t),
    ensures
        bisect(g1, d1, lo, hi, count) == bisect(g2, d2, lo, hi, count),
    decreases MAX_STEPS - count,
{
    let mid = lo + (hi - lo) / 2;
    lemma_scaled_value(m, g2(mid), d2);
    lemma_scaled_value(m, g2(lo), d2);
    assert(g1(mid) == m * g2(mid) && g1(lo) == m * g2(lo));
    if !near_zero(g2(mid), d2) && hi - lo > 1 && count < MAX_STEPS {
        lemma_bisect_scale(g1, d1, g2, d2, m, mid, hi, count + 1);
        lemma_bisect_scale(g1, d1, g2, d2, m, lo, mid, count + 1);
    }
}

/// Scaling a field by a positive factor, and the tolerance's denominator with it, leaves
/// the search unchanged.
pub proof fn lemma_search_scale(
    g1: spec_fn(int) -> int,
    d1: int,
    g2: spec_fn(int) -> int,
    d2: int,
    m: int,
    lo: int,
    hi: int,
)
    requires
        lo <= hi,
        m > 0,
        d1 == m * d2,
        forall|t: int| lo <= t <= hi ==> #[trigger] g1(t) == m * g2(t),
    ensures
        search(g1, d1, lo, hi) == search(g2, d2, lo, hi),
{
    lemma_scaled_value(m, g2(lo), d2);
    lemma_scaled_value(m, g2(hi), d2);
    assert(g1(lo) == m * g2(lo) && g1(hi) == m * g2(hi));
    lemma_bisect_scale(g1, d1, g2, d2, m, lo, hi, 0);
}

/// A positive factor keeps the sign and scales the tolerance test.
proof fn lemma_scaled_value(m: int, v: int, d: int)
    requires
        m > 0,
    ensures
        (m * v < 0) == (v < 0),
        near_zero(m * v, m * d) == near_zero(v, d),
{
    assert((m * v < 0) == (v < 0)) by (nonlinear_arith)
        requires m > 0;
    assert(magnitude(m * v) == m * magnitude(v)) by (nonlinear_arith)
        requires m > 0;
    assert((TOLERANCE_INV * (m * magnitude(v)) < m * d) == (TOLERANCE_INV * magnitude(v) < d))
        by (nonlinear_arith)
        requires m > 0;
}

/// Whether the samples of `block` describe the plane `y = h` (world units): each sample
/// holds its height above the plane.
pub open spec fn is_plane_block(block: Block, h: int) -> bool {
    forall|i: int, j: int, k: int|
        block.density.holds(i, j, k) ==> #[trigger] block.density.at(i, j, k) == block.bound_min.1
            + j * block.voxel_size - h
}

/// Interpolating the samples of a plane gives the plane back: the density numerator at
/// `p` is `voxel_size * edge² * (y - h)`, with `y - h` in fixed-point steps.
pub proof fn lemma_plane_block_density(block: Block, h: int, p: (int, int, int))
    requires
        block.wf(),
        is_plane_block(block, h),
        block.contains(p),
    ensures
        block.density_num(p) == block.voxel_size * (block.edge() * block.edge()) * (p.1 - h
            * FIXED_ONE),
{
    let d = block.edge();
    let vs = block.voxel_size as int;
    let g = block.density;
    let lx = Block::local(block.bound_min.0 as int, p.0);
    let ly = Block::local(block.bound_min.1 as int, p.1);
    let lz = Block::local(block.bound_min.2 as int, p.2);
    let i = crate::block::cell_of(lx, d, block.cells());
    let j = crate::block::cell_of(ly, d, block.cells());
    let k = crate::block::cell_of(lz, d, block.cells());
    vstd::arithmetic::div_mod::lemma_fundamental_div_mod(lx, d);
    vstd::arithmetic::div_mod::lemma_fundamental_div_mod(ly, d);
    vstd::arithmetic::div_mod::lemma_fundamental_div_mod(lz, d);
    assert(0 <= lx / d && 0 <= ly / d && 0 <= lz / d) by {
        vstd::arithmetic::div_mod::lemma_div_pos_is_pos(lx, d);
        vstd::arithmetic::div_mod::lemma_div_pos_is_pos(ly, d);
        vstd::arithmetic::div_mod::lemma_div_pos_is_pos(lz, d);
    }
    let fx = lx - i * d;
    let fy = ly - j * d;
    let fz = lz - k * d;
    let a0 = block.bound_min.1 + j * vs - h;
    let a1 = block.bound_min.1 + (j + 1) * vs - h;
    assert(g.holds(i, j, k) && g.holds(i + 1, j, k) && g.holds(i, j + 1, k) && g.holds(
        i + 1,
        j + 1,
        k,
    ));
    assert(g.holds(i, j, k + 1) && g.holds(i + 1, j, k + 1) && g.holds(i, j + 1, k + 1)
        && g.holds(i + 1, j + 1, k + 1));
    assert(g.at(i, j, k) == a0 && g.at(i + 1, j, k) == a0 && g.at(i, j, k + 1) == a0 && g.at(
        i + 1,
        j,
        k + 1,
    ) == a0);
    assert(g.at(i, j + 1, k) == a1 && g.at(i + 1, j + 1, k) == a1 && g.at(i, j + 1, k + 1) == a1
        && g.at(i + 1, j + 1, k + 1) == a1);
    assert(lerp(a0, a0, fx, d) == a0 * d) by (nonlinear_arith);
    assert(lerp(a1, a1, fx, d) == a1 * d) by (nonlinear_arith);
    assert(lerp(a0 * d, a1 * d, fy, d) == d * (a0 * (d - fy) + a1 * fy)) by (nonlinear_arith);
    let c = d * (a0 * (d - fy) + a1 * fy);
    assert(lerp(c, c, fz, d) == c * d) by (nonlinear_arith);
    assert(c * d == (d * d) * (a0 * (d - fy) + a1 * fy)) by (nonlinear_arith)
        requires c == d * (a0 * (d - fy) + a1 * fy);
    assert(a1 == a0 + vs) by (nonlinear_arith)
        requires a0 == block.bound_min.1 + j * vs - h, a1 == block.bound_min.1 + (j + 1) * vs - h;
    assert(p.1 - h * FIXED_ONE == FIXED_ONE * a0 + fy) by (nonlinear_arith)
        requires
            a0 == block.bound_min.1 + j * vs - h,
            fy == ly - j * d,
            ly == p.1 - block.bound_min.1 * FIXED_ONE,
            d == vs * FIXED_ONE,
    ;
    assert((d * d) * (a0 * (d - fy) + a1 * fy) == vs * (d * d) * (FIXED_ONE * a0 + fy))
        by (nonlinear_arith)
        requires a1 == a0 + vs, d == vs * FIXED_ONE;
}

/// Searching a block whose samples describe the plane `y = h` (world units), along a ray,
/// rising or falling, over a span that reaches the plane (an end on the plane included),
/// finds a point on the plane: `|y - h| < 0.001` world units.
pub proof fn lemma_plane_block_crossing(block: Block, ray: Ray, h: int, lo: int, hi: int)
    requires
        block.wf(),
        is_plane_block(block, h),
        ray.wf(),
        span_ok(block, ray, lo, hi),
        reaches_plane(ray, h * FIXED_ONE, lo, hi),
    ensures
        search(along(block, ray), block.denominator(), lo, hi) matches Some(t) && lo <= t <= hi
            && TOLERANCE_INV * magnitude(ray.at(t).1 - h * FIXED_ONE) < FIXED_ONE,
{
    let hf = h * FIXED_ONE;
    let g1 = along(block, ray);
    let g2 = plane_along(ray, hf);
    let d = block.edge();
    let vs = block.voxel_size as int;
    let m = vs * (d * d);
    assert(m > 0) by (nonlinear_arith)
        requires m == vs * (d * d), vs >= 1, d >= 1;
    assert(block.denominator() == m * FIXED_ONE) by (nonlinear_arith)
        requires m == vs * (d * d), d == vs * 1000, block.denominator() == d * d * d;
    assert forall|t: int| lo <= t <= hi implies #[trigger] g1(t) == m * g2(t) by {
        crate::block::lemma_ray_inside(&block, &ray, lo, t, hi);
        lemma_plane_block_density(block, h, ray.at(t));
    }
    lemma_search_scale(g1, block.denominator(), g2, FIXED_ONE as int, m, lo, hi);
    lemma_plane_crossing(ray, hf, lo, hi);
}

/// The falling case spelled out: a ray going down from air on or above the plane `y = h` of
/// a block into the solid on or below it finds the plane.
pub proof fn lemma_plane_block_crossing_falling(block: Block, ray: Ray, h: int, lo: int, hi: int)
    requires
        block.wf(),
        is_plane_block(block, h),
        ray.wf(),
        ray.direction.y < 0,
        span_ok(block, ray, lo, hi),
        ray.at(hi).1 <= h * FIXED_ONE <= ray.at(lo).1,
    ensures
        search(along(block, ray), block.denominator(), lo, hi) matches Some(t) && lo <= t <= hi
            && TOLERANCE_INV * magnitude(ray.at(t).1 - h * FIXED_ONE) < FIXED_ONE,
{
    lemma_plane_block_crossing(block, ray, h, lo, hi);
}

/// The crossing parameter at `i`, or 0 where there is none.
pub open spec fn param_of(ts: Seq<Option<i64>>, i: int) -> int {
    match ts[i] {
        Some(t) => t as int,
        None => 0,
    }
}

/// Scanning `ts` in order and keeping a best-so-far index that a later crossing replaces
/// only when strictly nearer: the index chosen, or `None` when no entry holds a crossing.
pub open spec fn nearest(ts: Seq<Option<i64>>) -> Option<int>
    decreases ts.len(),
{
    if ts.len() == 0 {
        None
    } else {
        let last = ts.len() - 1;
        let best = nearest(ts.drop_last());
        match ts[last] {
            None => best,
            Some(t) => match best {
                None => Some(last),
                Some(b) => if t < param_of(ts, b) {
                    Some(last)
                } else {
                    best
                },
            },
        }
    }
}

/// What the scan chooses: nothing exactly when no entry holds a crossing, else the first
/// entry among those with the smallest parameter.
pub proof fn lemma_nearest_is_first_minimum(ts: Seq<Option<i64>>)
    ensures
        nearest(ts) is None <==> forall|j: int| 0 <= j < ts.len() ==> ts[j] is None,
        nearest(ts) matches Some(i) ==> {
            &&& 0 <= i < ts.len()
            &&& ts[i] is Some
            &&& forall|j: int|
                0 <= j < i ==> ts[j] is None || param_of(ts, j) > param_of(ts, i)
            &&& forall|j: int|
                i < j < ts.len() ==> ts[j] is None || param_of(ts, j) >= param_of(ts, i)
        },
    decreases ts.len(),
{
    if ts.len() > 0 {
        let pre = ts.drop_last();
        lemma_nearest_is_first_minimum(pre);
        assert forall|j: int| 0 <= j < pre.len() implies pre[j] == ts[j] && param_of(pre, j)
            == param_of(ts, j) by {}
        if nearest(ts) is None {
            assert forall|j: int| 0 <= j < ts.len() implies ts[j] is None by {
                if j < pre.len() {
                    assert(pre[j] == ts[j]);
                }
            }
        }
    }
}

/// Of two blocks whose crossings lie at `t1 < t2`, the one at `t2` is never chosen, and
/// the choice lies no farther than `t1`.
pub proof fn lemma_nearer_crossing_wins(ts: Seq<Option<i64>>, a: int, b: int)
    requires
        0 <= a < ts.len(),
        0 <= b < ts.len(),
        ts[a] is Some,
        ts[b] is Some,
        param_of(ts, a) < param_of(ts, b),
    ensures
        nearest(ts) matches Some(k) && k != b && param_of(ts, k) <= param_of(ts, a),
{
    lemma_nearest_is_first_minimum(ts);
}

/// The index of the nearest crossing, scanning in order; ties keep the first found.
pub fn select_nearest(ts: &Vec<Option<i64>>) -> (r: Option<usize>)
    ensures
        match r {
            Some(i) => nearest(ts@) == Some(i as int),
            None => nearest(ts@) is None,
        },
        r is None <==> forall|j: int| 0 <= j < ts@.len() ==> ts@[j] is None,
        r matches Some(i) ==> {
            &&& i < ts@.len()
            &&& ts@[i as int] is Some
            &&& forall|j: int|
                0 <= j < i ==> ts@[j] is None || param_of(ts@, j) > param_of(ts@, i as int)
            &&& forall|j: int|
                i < j < ts@.len() ==> ts@[j] is None || param_of(ts@, j) >= param_of(
                    ts@,
                    i as int,
                )
        },
{
    proof {
        lemma_nearest_is_first_minimum(ts@);
    }
    let mut best: Option<usize> = None;
    let mut best_t: i64 = 0;
    let mut i: usize = 0;
    while i < ts.len()
        invariant
            0 <= i <= ts@.len(),
            match best {
                Some(b) => nearest(ts@.take(i as int)) == Some(b as int) && b < i && best_t
                    == param_of(ts@, b as int),
                None => nearest(ts@.take(i as int)) is None,
            },
        decreases ts@.len() - i,
    {
        let ghost pre = ts@.take(i as int);
        let ghost cur = ts@.take(i + 1);
        assert(cur.drop_last() == pre);
        assert(cur[i as int] == ts@[i as int]);
        match ts[i] {
            Some(t) => {
                match best {
                    None => {
                        best = Some(i);
                        best_t = t;
                    },
                    Some(b) => {
                        assert(cur[b as int] == ts@[b as int]);
                        if t < best_t {
                            best = Some(i);
                            best_t = t;
                        }
                    },
                }
            },
            None => {},
        }
        i = i + 1;
    }
    assert(ts@.take(ts@.len() as int) == ts@);
    best
}

/// The cursor for a crossing at fixed-point point `p` of `block`.
pub open spec fn cursor_state(block: Block, p: Point, voxel_select: bool) -> State {
    if voxel_select {
        State {
            position: snap_spec(p, block.edge()),
            block: block.position,
            cursor_size: (block.edge() / 2) as i64,
        }
    } else {
        State { position: p, block: block.position, cursor_size: CURSOR_RADIUS }
    }
}

/// The crossing parameter that bisection finds in each block over its span, if any.
pub open spec fn crossings(blocks: Seq<Block>, spans: Seq<Option<(i64, i64)>>, ray: Ray) -> Seq<
    Option<i64>,
> {
    Seq::new(
        blocks.len(),
        |i: int|
            match spans[i] {
                Some((a, b)) => match search(
                    along(blocks[i], ray),
                    blocks[i].denominator(),
                    a as int,
                    b as int,
                ) {
                    Some(t) => Some(t as i64),
                    None => None,
                },
                None => None,
            },
    )
}

/// The fixed-point point of a ray at parameter `t`.
pub open spec fn point_of(ray: Ray, t: int) -> Point {
    Point { x: ray.at(t).0 as i64, y: ray.at(t).1 as i64, z: ray.at(t).2 as i64 }
}

/// Whether each block is well formed and each span may be searched in its block.
pub open spec fn candidates_ok(blocks: Seq<Block>, spans: Seq<Option<(i64, i64)>>, ray: Ray) -> bool {
    &&& blocks.len() == spans.len()
    &&& forall|i: int| 0 <= i < blocks.len() ==> #[trigger] blocks[i].wf()
    &&& forall|i: int|
        0 <= i < blocks.len() ==> (#[trigger] spans[i] matches Some((a, b)) ==> span_ok(
            blocks[i],
            ray,
            a as int,
            b as int,
        ))
}

/// Whether bisection may search `[a, b]` in `block` along `ray`.
pub fn span_fits(block: &Block, ray: &Ray, a: i64, b: i64) -> (r: bool)
    requires
        block.wf(),
        ray.wf(),
    ensures
        r == span_ok(*block, *ray, a as int, b as int),
{
    if !(-PARAM_LIMIT <= a && a <= b && b <= PARAM_LIMIT) {
        return false;
    }
    let pa = ray.point_at(a);
    let pb = ray.point_at(b);
    block.holds(pa) && block.holds(pb)
}

/// Picks the surface under the ray for one frame. `spans[i]` is the parameter range in
/// which the ray crosses the box of `blocks[i]` (`None`: it misses the box, or the block
/// is disabled). Every block with a span is bisected; among the crossings found the
/// nearest wins, the earlier block on a tie. In voxel-select mode the point is snapped to
/// its voxel centre and the cursor radius is half a voxel.
pub fn track(blocks: &Vec<Block>, spans: &Vec<Option<(i64, i64)>>, ray: &Ray, voxel_select: bool)
    -> (r: Option<State>)
    requires
        ray.wf(),
        candidates_ok(blocks@, spans@, *ray),
    ensures
        match nearest(crossings(blocks@, spans@, *ray)) {
            None => r is None,
            Some(i) => r == Some(
                cursor_state(
                    blocks@[i],
                    point_of(*ray, param_of(crossings(blocks@, spans@, *ray), i)),
                    voxel_select,
                ),
            ),
        },
{
    let ghost hits = crossings(blocks@, spans@, *ray);
    let mut ts: Vec<Option<i64>> = Vec::new();
    let mut points: Vec<Point> = Vec::new();
    let mut i: usize = 0;
    while i < blocks.len()
        invariant
            ray.wf(),
            candidates_ok(blocks@, spans@, *ray),
            hits == crossings(blocks@, spans@, *ray),
            0 <= i <= blocks@.len(),
            ts@.len() == i,
            points@.len() == i,
            forall|j: int| 0 <= j < i ==> ts@[j] == hits[j],
            forall|j: int|
                0 <= j < i ==> (#[trigger] ts@[j] matches Some(t) ==> points@[j] == point_of(
                    *ray,
                    t as int,
                ) && blocks@[j].contains(ray.at(t as int))),
        decreases blocks@.len() - i,
    {
        assert(blocks@[i as int].wf());
        match spans[i] {
            Some((a, b)) => {
                assert(span_ok(blocks@[i as int], *ray, a as int, b as int));
                match binary_search(a, b, ray, &blocks[i]) {
                    Some((p, t)) => {
                        proof {
                            lemma_ray_inside(&blocks@[i as int], ray, a as int, t as int, b as int);
                        }
                        ts.push(Some(t));
                        points.push(p);
                    },
                    None => {
                        ts.push(None);
                        points.push(Point { x: 0, y: 0, z: 0 });
                    },
                }
            },
            None => {
                ts.push(None);
                points.push(Point { x: 0, y: 0, z: 0 });
            },
        }
        i = i + 1;
    }
    assert(ts@ == hits);
    proof {
        lemma_nearest_is_first_minimum(hits);
    }
    match select_nearest(&ts) {
        None => None,
        Some(k) => {
            let block = &blocks[k];
            let p = points[k];
            assert(blocks@[k as int].wf());
            proof {
                let bk = blocks@[k as int];
                assert(bk.contains(ray.at(param_of(ts@, k as int))));
                assert(bk.cells() * bk.edge() <= 1023 * 1_000_000) by (nonlinear_arith)
                    requires 0 <= bk.cells() <= 1023, 0 < bk.edge() <= 1_000_000;
            }
            if voxel_select {
                let edge = block.voxel_size * FIXED_ONE;
                Some(
                    State { position: snap(p, edge), block: block.position, cursor_size: edge / 2 },
                )
            } else {
                Some(State { position: p, block: block.position, cursor_size: CURSOR_RADIUS })
            }
        },
    }
}

} // verus!
