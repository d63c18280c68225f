use fluid_simulation::grid::{flat_index, CellType, Grid3D};
use fluid_simulation::vec3::{Axis, UVec3};

#[test]
fn new_grid_holds_the_default_everywhere() {
    let grid = Grid3D::new(2, 3, 4, 7u32);
    assert_eq!(grid.dimensions(), UVec3::new(2, 3, 4));
    for x in 0..2 {
        for y in 0..3 {
            for z in 0..4 {
                assert_eq!(grid.get(x, y, z), 7);
            }
        }
    }
}

#[test]
fn set_then_get_reads_the_written_value_only_there() {
    let mut grid = Grid3D::new(2, 3, 4, 7u32);
    grid.set(1, 2, 3, 9);
    assert_eq!(grid.get(1, 2, 3), 9);
    assert_eq!(grid.get(0, 0, 0), 7);
    assert_eq!(grid.get(1, 2, 2), 7);
    assert_eq!(grid.get(0, 2, 3), 7);
}

#[test]
fn get_mut_changes_the_stored_value() {
    let mut grid = Grid3D::new(2, 2, 2, 0.0f32);
    *grid.get_mut(1, 0, 1) = 2.5;
    assert_eq!(grid.get(1, 0, 1), 2.5);
    assert_eq!(grid.get(0, 0, 1), 0.0);
}

#[test]
fn clear_restores_the_default() {
    let mut grid = Grid3D::new(3, 1, 2, false);
    grid.set(2, 0, 1, true);
    grid.set(0, 0, 0, true);
    grid.clear();
    for x in 0..3 {
        for z in 0..2 {
            assert!(!grid.get(x, 0, z));
        }
    }
    assert_eq!(grid.dimensions(), UVec3::new(3, 1, 2));
}

#[test]
fn clone_is_independent_of_the_original() {
    let mut grid = Grid3D::new(2, 2, 2, 1i32);
    let copy = grid.clone();
    grid.set(1, 1, 1, 5);
    assert_eq!(copy.get(1, 1, 1), 1);
    assert_eq!(grid.get(1, 1, 1), 5);
    assert_eq!(copy.dimensions(), grid.dimensions());
}

#[test]
fn storage_is_x_major() {
    let mut grid = Grid3D::new(2, 3, 4, 0u32);
    grid.set(1, 0, 0, 42);
    // (0, 3, 0) has the storage position 3 * 4 = 12 = 1 * 3 * 4 of (1, 0, 0).
    assert_eq!(grid.get(0, 3, 0), 42);
    assert_eq!(flat_index(UVec3::new(2, 3, 4), 1, 2, 3), 23);
    assert_eq!(flat_index(UVec3::new(2, 3, 4), 0, 0, 0), 0);
    assert_eq!(flat_index(UVec3::new(2, 3, 4), 1, 0, 0), 12);
}

#[test]
fn empty_grid_has_no_cells() {
    let grid = Grid3D::new(0, 5, 5, 1u8);
    assert_eq!(grid.dimensions(), UVec3::new(0, 5, 5));
}

#[test]
fn check_wall_reports_solid_cells() {
    let mut cells = Grid3D::new(2, 2, 2, CellType::Air);
    cells.set(1, 1, 0, CellType::Solid);
    cells.set(0, 1, 0, CellType::Fluid);
    assert!(cells.check_wall(1, 1, 0));
    assert!(!cells.check_wall(0, 1, 0));
    assert!(!cells.check_wall(0, 0, 0));
}

#[test]
fn vector_operations_work_componentwise() {
    let a = UVec3::new(1, 5, 3);
    let b = UVec3::new(2, 2, 2);
    assert_eq!(a.saturating_sub(b), UVec3::new(0, 3, 1));
    assert_eq!(a.sum(b), UVec3::new(3, 7, 5));
    assert_eq!(a.component_min(b), UVec3::new(1, 2, 2));
    assert_eq!(a.minus_one(), UVec3::new(0, 4, 2));
    assert_eq!(a.max_element(), 5);
    assert_eq!(UVec3::splat(4), UVec3::new(4, 4, 4));
    assert_eq!(UVec3::unit(Axis::Y), UVec3::new(0, 1, 0));
    assert_eq!(a.get(Axis::Z), 3);
    assert_eq!(a.step_back(Axis::Y), UVec3::new(1, 4, 3));
    assert_eq!(a.step_forward(Axis::X), UVec3::new(2, 5, 3));
}
