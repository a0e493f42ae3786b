use terrain_editor::block::{Block, Ray};
use terrain_editor::cursor::{binary_search, select_nearest, span_fits, track, Cursor, CURSOR_RADIUS};
use terrain_editor::density::DensityGrid;
use terrain_editor::geometry::{floor_div, snap, Point, FIXED_ONE};

/// A block of 2 cells per edge, voxel edge 1, whose samples describe the plane
/// `y = bound_min.y + 1`: density `j - 1` at sample row `j`.
fn plane_block(position: (i32, i32, i32), bound_min: (i64, i64, i64)) -> Block {
    let mut density = DensityGrid::new(bound_min, 3, 0);
    for x in 0..3 {
        for y in 0..3 {
            for z in 0..3 {
                density.set(x, y, z, y as i32 - 1);
            }
        }
    }
    Block { position, bound_min, voxel_size: 1, density }
}

fn rising_ray() -> Ray {
    Ray { origin: Point::new(500, 0, 500), direction: Point::new(0, FIXED_ONE, 0) }
}

#[test]
fn floor_div_rounds_down() {
    assert_eq!(floor_div(7, 2), 3);
    assert_eq!(floor_div(-7, 2), -4);
    assert_eq!(floor_div(-8, 2), -4);
    assert_eq!(floor_div(0, 5), 0);
}

#[test]
fn snap_to_voxel_centre() {
    let p = snap(Point::new(1300, 100, 5900), 2 * FIXED_ONE);
    assert_eq!(p, Point::new(1000, 1000, 5000));
}

#[test]
fn snap_negative_coordinates() {
    let p = snap(Point::new(-1300, -100, -5900), 2 * FIXED_ONE);
    assert_eq!(p, Point::new(-1000, -1000, -5000));
    let q = snap(Point::new(-2000, 0, 1999), 2 * FIXED_ONE);
    assert_eq!(q, Point::new(-1000, 1000, 1000));
}

#[test]
fn ray_point_rounds_down() {
    let ray = Ray { origin: Point::new(10, 20, 30), direction: Point::new(-1, 1, 999) };
    let p = ray.point_at(1);
    assert_eq!(p, Point::new(9, 20, 30));
    let q = ray.point_at(2000);
    assert_eq!(q, Point::new(8, 22, 2028));
}

#[test]
fn density_interpolates_trilinearly() {
    let mut density = DensityGrid::new((0, 0, 0), 2, 0);
    density.set(1, 1, 1, 8);
    let block = Block { position: (0, 0, 0), bound_min: (0, 0, 0), voxel_size: 1, density };
    // The centre of the cell weighs each corner by 1/8: the value is 1.
    assert_eq!(block.density_at(Point::new(500, 500, 500)), 1_000_000_000);
    assert_eq!(block.density_at(Point::new(1000, 1000, 1000)), 8_000_000_000);
    assert_eq!(block.density_at(Point::new(0, 0, 0)), 0);
}

#[test]
fn density_on_upper_face_uses_last_cell() {
    let block = plane_block((0, 0, 0), (0, 0, 0));
    // y = 2 is the upper face: density 1 there.
    assert_eq!(block.density_at(Point::new(2000, 2000, 2000)), 1_000_000_000);
    assert_eq!(block.density_at(Point::new(0, 1500, 0)), 500_000_000);
}

#[test]
fn bisection_finds_plane_crossing() {
    let block = plane_block((0, 0, 0), (0, 0, 0));
    let r = binary_search(0, 1700, &rising_ray(), &block);
    assert_eq!(r, Some((Point::new(500, 1000, 500), 1000)));
}

#[test]
fn bisection_slanted_ray() {
    let block = plane_block((0, 0, 0), (0, 0, 0));
    let ray = Ray { origin: Point::new(100, 0, 300), direction: Point::new(600, 800, 0) };
    let r = binary_search(0, 2400, &ray, &block);
    assert_eq!(r, Some((Point::new(850, 1000, 300), 1251)));
}

#[test]
fn bisection_crossing_at_first_midpoint() {
    let block = plane_block((0, 0, 0), (0, 0, 0));
    let r = binary_search(0, 2000, &rising_ray(), &block);
    assert_eq!(r, Some((Point::new(500, 1000, 500), 1000)));
}

#[test]
fn bisection_gives_up_without_sign_change() {
    let block = plane_block((0, 0, 0), (0, 0, 0));
    // The whole span lies above the plane.
    assert_eq!(binary_search(1200, 2000, &rising_ray(), &block), None);
}

#[test]
fn bisection_narrows_by_midpoint_sign() {
    // A descending ray: the density falls along it, and the bracket still follows the sign
    // change down to the plane.
    let block = plane_block((0, 0, 0), (0, 0, 0));
    let ray = Ray { origin: Point::new(500, 2000, 500), direction: Point::new(0, -FIXED_ONE, 0) };
    assert_eq!(binary_search(0, 1700, &ray, &block), Some((Point::new(500, 1000, 500), 1000)));
}

#[test]
fn bisection_descending_onto_plane() {
    // The plane y = 5 in a block of 8 voxels per edge, seen from (0.5, 8, 0.5) looking down.
    let mut density = DensityGrid::new((0, 0, 0), 9, 0);
    for x in 0..9 {
        for y in 0..9 {
            for z in 0..9 {
                density.set(x, y, z, y as i32 - 5);
            }
        }
    }
    let block = Block { position: (0, 0, 0), bound_min: (0, 0, 0), voxel_size: 1, density };
    let ray = Ray { origin: Point::new(500, 8000, 500), direction: Point::new(0, -FIXED_ONE, 0) };
    assert_eq!(binary_search(0, 8000, &ray, &block), Some((Point::new(500, 5000, 500), 3000)));
}

#[test]
fn bisection_steep_crossing_between_steps() {
    // Density -1 at y = 0 and 2 at y = 1: the surface lies at y = 1/3, between two steps,
    // and no step comes within the tolerance of it.
    let mut density = DensityGrid::new((0, 0, 0), 2, -1);
    for x in 0..2 {
        for z in 0..2 {
            density.set(x, 1, z, 2);
        }
    }
    let block = Block { position: (0, 0, 0), bound_min: (0, 0, 0), voxel_size: 1, density };
    assert_eq!(binary_search(0, 1000, &rising_ray(), &block), None);
}

#[test]
fn bisection_one_step_outside_tolerance() {
    // Density -10001 at y = 0 and 9999 at y = 1: -1 at y = 0.5 and 19 at y = 0.501.
    let mut density = DensityGrid::new((0, 0, 0), 2, -10001);
    for x in 0..2 {
        for z in 0..2 {
            density.set(x, 1, z, 9999);
        }
    }
    let block = Block { position: (0, 0, 0), bound_min: (0, 0, 0), voxel_size: 1, density };
    let ray = Ray { origin: Point::new(500, 500, 500), direction: Point::new(0, FIXED_ONE, 0) };
    assert_eq!(binary_search(0, 1, &ray, &block), None);
}

#[test]
fn bisection_crossing_at_span_start() {
    let block = plane_block((0, 0, 0), (0, 0, 0));
    let ray = Ray { origin: Point::new(500, 1000, 500), direction: Point::new(0, FIXED_ONE, 0) };
    assert_eq!(binary_search(0, 2, &ray, &block), Some((Point::new(500, 1000, 500), 0)));
}

#[test]
fn bisection_crossing_at_span_end() {
    let block = plane_block((0, 0, 0), (0, 0, 0));
    let ray = Ray { origin: Point::new(500, 998, 500), direction: Point::new(0, FIXED_ONE, 0) };
    assert_eq!(binary_search(0, 2, &ray, &block), Some((Point::new(500, 1000, 500), 2)));
}

#[test]
fn span_must_stay_inside_block() {
    let block = plane_block((0, 0, 0), (0, 0, 0));
    assert!(span_fits(&block, &rising_ray(), 0, 2000));
    assert!(!span_fits(&block, &rising_ray(), 0, 2001));
    assert!(!span_fits(&block, &rising_ray(), -1, 100));
    assert!(!span_fits(&block, &rising_ray(), 100, 50));
}

#[test]
fn nearest_keeps_first_of_equal() {
    assert_eq!(select_nearest(&vec![Some(5), None, Some(3), Some(3)]), Some(2));
    assert_eq!(select_nearest(&vec![Some(-1), Some(4)]), Some(0));
    assert_eq!(select_nearest(&vec![None, None]), None);
    assert_eq!(select_nearest(&vec![]), None);
}

#[test]
fn track_picks_nearer_block() {
    let lower = plane_block((0, 0, 0), (0, 0, 0));
    let upper = plane_block((0, 1, 0), (0, 2, 0));
    let blocks = vec![upper, lower];
    let spans = vec![Some((2000, 4000)), Some((0, 2000))];
    let s = track(&blocks, &spans, &rising_ray(), false).unwrap();
    assert_eq!(s.position, Point::new(500, 1000, 500));
    assert_eq!(s.block, (0, 0, 0));
    assert_eq!(s.cursor_size, CURSOR_RADIUS);
}

#[test]
fn track_tie_keeps_first_block() {
    let a = plane_block((7, 0, 0), (0, 0, 0));
    let b = plane_block((8, 0, 0), (0, 0, 0));
    let blocks = vec![a, b];
    let spans = vec![Some((0, 2000)), Some((0, 2000))];
    let s = track(&blocks, &spans, &rising_ray(), false).unwrap();
    assert_eq!(s.block, (7, 0, 0));
}

#[test]
fn track_snaps_in_voxel_mode() {
    let blocks = vec![plane_block((0, 0, 0), (0, 0, 0))];
    let spans = vec![Some((0, 1700))];
    let s = track(&blocks, &spans, &rising_ray(), true).unwrap();
    assert_eq!(s.position, Point::new(500, 1500, 500));
    assert_eq!(s.cursor_size, 500);
}

#[test]
fn track_without_hits() {
    let blocks = vec![plane_block((0, 0, 0), (0, 0, 0)), plane_block((1, 0, 0), (0, 0, 0))];
    let spans = vec![None, Some((1200, 2000))];
    assert!(track(&blocks, &spans, &rising_ray(), true).is_none());
    assert!(track(&vec![], &vec![], &rising_ray(), true).is_none());
}

#[test]
fn cursor_starts_visible() {
    assert!(Cursor::new().visible);
    assert!(Cursor::default().visible);
}

#[test]
fn validity_checks() {
    let block = plane_block((0, 0, 0), (0, 0, 0));
    assert!(block.is_well_formed());
    let flat = Block { position: (0, 0, 0), bound_min: (0, 0, 0), voxel_size: 1, density: DensityGrid::new((0, 0, 0), 1, 0) };
    assert!(!flat.is_well_formed());
    let shifted = Block { position: (0, 0, 0), bound_min: (1, 0, 0), voxel_size: 1, density: DensityGrid::new((0, 0, 0), 2, 0) };
    assert!(!shifted.is_well_formed());
    assert!(rising_ray().is_well_formed());
    let steep = Ray { origin: Point::new(0, 0, 0), direction: Point::new(0, 1001, 0) };
    assert!(!steep.is_well_formed());
    assert!(Point::new(1, 2, 3).is_in_range());
    assert!(!Point::new(0, i64::MAX, 0).is_in_range());
    let mut grid = DensityGrid::new((0, 0, 0), 2, 0);
    assert!(grid.is_well_formed());
    grid.values.pop();
    assert!(!grid.is_well_formed());
}
