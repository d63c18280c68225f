use fluid_simulation::cells::classify_by_surface;
use fluid_simulation::grid::{CellType, Grid3D};
use fluid_simulation::particle_grid::{ParticleGrid, ParticleType};
use fluid_simulation::vec3::UVec3;

fn sample_grid() -> ParticleGrid {
    let mut grid = ParticleGrid::new(UVec3::new(8, 6, 4));
    let coords = vec![UVec3::new(1, 1, 1), UVec3::new(6, 4, 2), UVec3::new(1, 1, 1)];
    grid.sort(&coords);
    grid
}

#[test]
fn sort_buckets_particles_by_cell_in_order_of_first_appearance() {
    let grid = sample_grid();
    assert_eq!(grid.cells, vec![vec![0, 2], vec![1]]);
    assert_eq!(grid.dimensions, UVec3::new(8, 6, 4));
}

#[test]
fn sort_replaces_the_previous_buckets() {
    let mut grid = sample_grid();
    grid.sort(&[UVec3::new(0, 0, 0)]);
    assert_eq!(grid.cells, vec![vec![0]]);
    grid.sort(&[]);
    assert!(grid.cells.is_empty());
}

#[test]
fn cell_neighbors_visits_the_box_around_a_cell() {
    let grid = sample_grid();
    assert_eq!(grid.cell_neighbors(UVec3::new(1, 1, 1), UVec3::splat(1)), vec![0, 2]);
    assert_eq!(grid.cell_neighbors(UVec3::new(6, 4, 2), UVec3::splat(1)), vec![1]);
    assert_eq!(grid.cell_neighbors(UVec3::new(0, 0, 0), UVec3::splat(1)), vec![0, 2]);
    assert_eq!(grid.cell_neighbors(UVec3::new(4, 3, 2), UVec3::splat(1)), Vec::<usize>::new());
    // A box reaching past the domain is clipped to it; cells come x-major.
    assert_eq!(grid.cell_neighbors(UVec3::new(4, 3, 2), UVec3::splat(10)), vec![0, 2, 1]);
}

#[test]
fn wall_neighbors_uses_a_half_open_box() {
    let grid = sample_grid();
    assert_eq!(grid.wall_neighbors(UVec3::new(1, 1, 1), UVec3::splat(1)), vec![0, 2]);
    assert_eq!(grid.wall_neighbors(UVec3::new(2, 2, 2), UVec3::splat(1)), vec![0, 2]);
    // The upper end is excluded: cell (1, 1, 1) is not below (1, 2, 2).
    assert_eq!(grid.wall_neighbors(UVec3::new(0, 1, 1), UVec3::new(1, 1, 1)), Vec::<usize>::new());
    assert_eq!(grid.wall_neighbors(UVec3::new(7, 5, 3), UVec3::new(1, 1, 1)), vec![1]);
}

#[test]
fn mark_cell_types_follows_the_particles() {
    let grid = sample_grid();
    let mut cell_types = Grid3D::new(8, 6, 4, CellType::Air);
    cell_types.set(3, 3, 3, CellType::Solid);
    let types = [ParticleType::Fluid, ParticleType::Solid, ParticleType::Fluid];
    grid.mark_cell_types(&types, &mut cell_types);
    assert_eq!(cell_types.get(1, 1, 1), CellType::Fluid);
    assert_eq!(cell_types.get(6, 4, 2), CellType::Solid);
    assert_eq!(cell_types.get(3, 3, 3), CellType::Air);
    assert_eq!(cell_types.get(0, 0, 0), CellType::Air);
}

#[test]
fn a_solid_particle_makes_its_cell_solid() {
    let grid = sample_grid();
    let mut cell_types = Grid3D::new(8, 6, 4, CellType::Air);
    let types = [ParticleType::Fluid, ParticleType::Fluid, ParticleType::Solid];
    grid.mark_cell_types(&types, &mut cell_types);
    assert_eq!(cell_types.get(1, 1, 1), CellType::Solid);
    assert_eq!(cell_types.get(6, 4, 2), CellType::Fluid);
}

#[test]
fn removing_all_particles_leaves_only_air() {
    let mut grid = sample_grid();
    grid.sort(&[]);
    let mut cell_types = Grid3D::new(8, 6, 4, CellType::Fluid);
    grid.mark_cell_types(&[], &mut cell_types);
    assert_eq!(cell_types.get(1, 1, 1), CellType::Air);
    assert_eq!(cell_types.get(6, 4, 2), CellType::Air);
    assert_eq!(grid.cell_neighbors(UVec3::new(1, 1, 1), UVec3::splat(2)), Vec::<usize>::new());
}

#[test]
fn particles_then_surface_decide_cell_kinds() {
    let grid = sample_grid();
    let mut cell_types = Grid3D::new(8, 6, 4, CellType::Air);
    let types = [ParticleType::Fluid, ParticleType::Solid, ParticleType::Fluid];
    grid.mark_cell_types(&types, &mut cell_types);
    // The fluid surface covers cells (1, 1, 1) and (2, 1, 1) and the solid cell.
    let mut inside = Grid3D::new(8, 6, 4, false);
    inside.set(1, 1, 1, true);
    inside.set(2, 1, 1, true);
    inside.set(6, 4, 2, true);
    classify_by_surface(&mut cell_types, &inside);
    assert_eq!(cell_types.get(1, 1, 1), CellType::Fluid);
    assert_eq!(cell_types.get(2, 1, 1), CellType::Fluid);
    assert_eq!(cell_types.get(6, 4, 2), CellType::Solid);
    assert_eq!(cell_types.get(0, 0, 0), CellType::Air);
}

#[test]
fn one_bucket_per_occupied_cell() {
    let mut grid = ParticleGrid::new(UVec3::new(1, 1, 1));
    grid.sort(&[UVec3::new(0, 0, 0)]);
    assert_eq!(grid.cells, vec![vec![0]]);
    let mut many = ParticleGrid::new(UVec3::new(2, 1, 1));
    let coords: Vec<UVec3> = (0..10).map(|i| UVec3::new(i % 2, 0, 0)).collect();
    many.sort(&coords);
    assert_eq!(many.cells, vec![vec![0, 2, 4, 6, 8], vec![1, 3, 5, 7, 9]]);
}
