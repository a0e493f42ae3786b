use terrain_editor::brush::{apply, falloff, Brush};
use terrain_editor::controls::Action;
use terrain_editor::cursor::State;
use terrain_editor::density::DensityGrid;
use terrain_editor::editor::{commit, VoxelPicker};
use terrain_editor::geometry::Point;

fn centre_state() -> State {
    State { position: Point::new(2000, 2000, 2000), block: (0, 0, 0), cursor_size: 500 }
}

#[test]
fn falloff_centre_and_edge() {
    assert_eq!(falloff(0, 3), 4);
    assert_eq!(falloff(9_000_000, 3), 0);
}

#[test]
fn falloff_truncates() {
    assert_eq!(falloff(999_999, 3), 4);
    assert_eq!(falloff(4_500_000, 3), 3);
    assert_eq!(falloff(8_999_999, 3), 1);
    assert_eq!(falloff(25_000_000, 5), 0);
    assert_eq!(falloff(12_000_000, 5), 3);
}

#[test]
fn default_brush_has_radius_one() {
    assert_eq!(Brush::default().size(), 1);
    assert_eq!(Brush::new(3).size(), 3);
}

#[test]
fn stroke_adds_falloff_in_cube() {
    let mut grid = DensityGrid::new((0, 0, 0), 5, 0);
    Brush::default().stroke(Point::new(2000, 2000, 2000), &mut grid);
    assert_eq!(grid.get(2, 2, 2), 4);
    assert_eq!(grid.get(1, 2, 2), 4);
    assert_eq!(grid.get(1, 1, 2), 4);
    assert_eq!(grid.get(1, 1, 1), 3);
    assert_eq!(grid.get(3, 3, 3), 3);
    assert_eq!(grid.get(0, 2, 2), 0);
    assert_eq!(grid.get(4, 4, 4), 0);
}

#[test]
fn stroke_cube_starts_at_ceiling() {
    let mut grid = DensityGrid::new((0, 0, 0), 5, 0);
    // ceil(1.5 - 1) = 1: the cube covers samples 1..=3 on each axis.
    Brush::default().stroke(Point::new(1500, 1500, 1500), &mut grid);
    assert_eq!(grid.get(0, 0, 0), 0);
    // distance² to (1, 1, 1) is 0.75: trunc 0, delta 4.
    assert_eq!(grid.get(1, 1, 1), 4);
    // distance² to (3, 3, 3) is 6.75: trunc 6, 4 - 24 / 9 = 2.
    assert_eq!(grid.get(3, 3, 3), 2);
    assert_eq!(grid.get(4, 1, 1), 0);
}

#[test]
fn stroke_grid_offset_origin() {
    let mut grid = DensityGrid::new((-2, -2, -2), 5, -10);
    Brush::default().stroke(Point::new(0, 0, 0), &mut grid);
    assert_eq!(grid.get(2, 2, 2), -6);
    assert_eq!(grid.get(1, 1, 1), -7);
    assert_eq!(grid.get(0, 0, 0), -10);
}

#[test]
fn held_brush_accumulates_linearly() {
    let mut grid = DensityGrid::new((0, 0, 0), 5, -20);
    let brush = Brush::default();
    let cursor = Some(centre_state());
    for frame in 1..=5 {
        assert!(apply(&brush, true, &cursor, &mut grid));
        assert_eq!(grid.get(2, 2, 2), -20 + 4 * frame);
        assert_eq!(grid.get(1, 1, 1), -20 + 3 * frame);
        assert_eq!(grid.get(0, 0, 0), -20);
    }
}

#[test]
fn stroke_holds_at_i32_max() {
    let mut grid = DensityGrid::new((0, 0, 0), 5, i32::MAX - 2);
    Brush::default().stroke(Point::new(2000, 2000, 2000), &mut grid);
    assert_eq!(grid.get(2, 2, 2), i32::MAX);
    assert_eq!(grid.get(0, 0, 0), i32::MAX - 2);
}

#[test]
fn apply_needs_hold_and_cursor() {
    let mut grid = DensityGrid::new((0, 0, 0), 5, 1);
    let brush = Brush::default();
    assert!(!apply(&brush, false, &Some(centre_state()), &mut grid));
    assert!(!apply(&brush, true, &None, &mut grid));
    assert_eq!(grid.get(2, 2, 2), 1);
}

#[test]
fn brush_fits_grid() {
    let grid = DensityGrid::new((0, 0, 0), 5, 0);
    let brush = Brush::default();
    assert!(brush.fits(Point::new(2000, 2000, 2000), &grid));
    assert!(brush.fits(Point::new(1000, 1000, 1000), &grid));
    assert!(brush.fits(Point::new(500, 2000, 2000), &grid));
    assert!(!brush.fits(Point::new(-500, 2000, 2000), &grid));
    assert!(!brush.fits(Point::new(2000, 2000, 3500), &grid));
}

#[test]
fn voxel_corners_round_trip() {
    let mut grid = DensityGrid::new((0, 0, 0), 4, 0);
    let mut picker = VoxelPicker::new((1, 2, 3), (1, 1, 1), &grid);
    assert_eq!(picker.values, [0; 8]);
    for k in 0..8 {
        picker.set_value(k, 10 * (k as i32 + 1));
    }
    picker.apply(&mut grid);
    let back = VoxelPicker::new((1, 2, 3), (1, 1, 1), &grid);
    assert_eq!(back.values, [10, 20, 30, 40, 50, 60, 70, 80]);
    assert_eq!(back.parent, (1, 2, 3));
    assert_eq!(back.index, (1, 1, 1));
}

#[test]
fn voxel_corner_order() {
    let mut grid = DensityGrid::new((0, 0, 0), 3, 0);
    let picker = VoxelPicker { parent: (0, 0, 0), index: (0, 0, 0), values: [1, 2, 3, 4, 5, 6, 7, 8] };
    commit(&Some(picker), &mut grid);
    assert_eq!(grid.get(0, 0, 0), 1);
    assert_eq!(grid.get(1, 0, 0), 2);
    assert_eq!(grid.get(1, 0, 1), 3);
    assert_eq!(grid.get(0, 0, 1), 4);
    assert_eq!(grid.get(0, 1, 0), 5);
    assert_eq!(grid.get(1, 1, 0), 6);
    assert_eq!(grid.get(1, 1, 1), 7);
    assert_eq!(grid.get(0, 1, 1), 8);
    assert_eq!(grid.get(2, 2, 2), 0);
}

#[test]
fn commit_without_staged_voxel() {
    let mut grid = DensityGrid::new((0, 0, 0), 3, 5);
    commit(&None, &mut grid);
    assert_eq!(grid.values, vec![5; 27]);
}

#[test]
fn actions_compare() {
    assert_eq!(Action::Brush, Action::Brush);
    assert_ne!(Action::Brush, Action::Move);
}

#[test]
fn stroke_radius_two() {
    let mut grid = DensityGrid::new((0, 0, 0), 5, 0);
    Brush::new(2).stroke(Point::new(2000, 2000, 2000), &mut grid);
    assert_eq!(grid.get(2, 2, 2), 4);
    // distance² 12: 4 - 48 / 25 = 3.
    assert_eq!(grid.get(0, 0, 0), 3);
    // distance² 4: 4 - 16 / 25 = 4.
    assert_eq!(grid.get(0, 2, 2), 4);
}
