use fluid_simulation::cells::{classify_by_surface, face_coupling, pressure_neighbors, FaceCoupling};
use fluid_simulation::faces::{
    enforce_boundary_velocities, extend_valid, extension_neighbor_faces, face_adjacent_cells, wall_marks,
};
use fluid_simulation::grid::{CellType, Grid3D};
use fluid_simulation::vec3::{Axis, UVec3};

fn domain_with_solid_center() -> Grid3D<CellType> {
    let mut cells = Grid3D::new(3, 3, 3, CellType::Air);
    cells.set(1, 1, 1, CellType::Solid);
    cells.set(0, 1, 1, CellType::Fluid);
    cells
}

#[test]
fn boundary_and_solid_faces_are_zeroed() {
    let cells = domain_with_solid_center();
    let mut u_x = Grid3D::new(4, 3, 3, 1.0f32);
    let mut u_y = Grid3D::new(3, 4, 3, 2.0f32);
    let mut u_z = Grid3D::new(3, 3, 4, 3.0f32);
    enforce_boundary_velocities(&mut u_x, &mut u_y, &mut u_z, &cells, 0.0);
    assert_eq!(u_x.get(0, 0, 0), 0.0);
    assert_eq!(u_x.get(3, 2, 2), 0.0);
    assert_eq!(u_x.get(1, 1, 1), 0.0);
    assert_eq!(u_x.get(2, 1, 1), 0.0);
    assert_eq!(u_x.get(1, 0, 0), 1.0);
    assert_eq!(u_x.get(2, 2, 1), 1.0);
    assert_eq!(u_y.get(1, 0, 1), 0.0);
    assert_eq!(u_y.get(1, 1, 1), 0.0);
    assert_eq!(u_y.get(1, 2, 1), 0.0);
    assert_eq!(u_y.get(0, 1, 1), 2.0);
    assert_eq!(u_z.get(1, 1, 2), 0.0);
    assert_eq!(u_z.get(1, 1, 3), 0.0);
    assert_eq!(u_z.get(2, 2, 1), 3.0);
}

#[test]
fn wall_marks_match_the_zeroed_faces() {
    let cells = domain_with_solid_center();
    let marks = wall_marks(&cells, Axis::X);
    assert_eq!(marks.dimensions(), UVec3::new(4, 3, 3));
    assert!(marks.get(0, 2, 2));
    assert!(marks.get(3, 0, 0));
    assert!(marks.get(1, 1, 1));
    assert!(marks.get(2, 1, 1));
    assert!(!marks.get(1, 0, 0));
    assert!(!marks.get(2, 2, 1));
    let marks_z = wall_marks(&cells, Axis::Z);
    assert_eq!(marks_z.dimensions(), UVec3::new(3, 3, 4));
    assert!(marks_z.get(1, 1, 2));
    assert!(!marks_z.get(0, 0, 1));
}

#[test]
fn adjacent_cells_of_faces() {
    let dims = UVec3::new(3, 3, 3);
    assert_eq!(face_adjacent_cells(UVec3::new(0, 1, 1), Axis::X, dims), (None, Some(UVec3::new(0, 1, 1))));
    assert_eq!(face_adjacent_cells(UVec3::new(3, 1, 1), Axis::X, dims), (Some(UVec3::new(2, 1, 1)), None));
    assert_eq!(
        face_adjacent_cells(UVec3::new(1, 2, 0), Axis::Y, dims),
        (Some(UVec3::new(1, 1, 0)), Some(UVec3::new(1, 2, 0)))
    );
}

#[test]
fn validity_spreads_one_face_per_round() {
    let mut valid = Grid3D::new(4, 1, 1, false);
    valid.set(0, 0, 0, true);
    let mut walls = Grid3D::new(4, 1, 1, false);
    walls.set(3, 0, 0, true);
    let once = extend_valid(&valid, &walls);
    assert!(once.get(0, 0, 0));
    assert!(once.get(1, 0, 0));
    assert!(!once.get(2, 0, 0));
    let twice = extend_valid(&once, &walls);
    assert!(twice.get(2, 0, 0));
    let thrice = extend_valid(&twice, &walls);
    // A wall face never becomes valid.
    assert!(!thrice.get(3, 0, 0));
}

#[test]
fn extension_neighbors_stop_at_the_edges() {
    let neighbors = extension_neighbor_faces(UVec3::new(0, 0, 0), UVec3::new(2, 2, 2));
    assert_eq!(
        neighbors,
        [
            UVec3::new(0, 0, 0),
            UVec3::new(1, 0, 0),
            UVec3::new(0, 0, 0),
            UVec3::new(0, 1, 0),
            UVec3::new(0, 0, 0),
            UVec3::new(0, 0, 1),
        ]
    );
    let inner = extension_neighbor_faces(UVec3::new(1, 1, 1), UVec3::new(2, 2, 2));
    assert_eq!(inner[0], UVec3::new(0, 1, 1));
    assert_eq!(inner[1], UVec3::new(1, 1, 1));
}

#[test]
fn pressure_neighbors_stay_in_the_domain() {
    let dims = UVec3::new(3, 3, 3);
    assert_eq!(
        pressure_neighbors(UVec3::new(0, 0, 0), dims),
        vec![UVec3::new(1, 0, 0), UVec3::new(0, 1, 0), UVec3::new(0, 0, 1)]
    );
    assert_eq!(
        pressure_neighbors(UVec3::new(1, 1, 1), dims),
        vec![
            UVec3::new(0, 1, 1),
            UVec3::new(2, 1, 1),
            UVec3::new(1, 0, 1),
            UVec3::new(1, 2, 1),
            UVec3::new(1, 1, 0),
            UVec3::new(1, 1, 2),
        ]
    );
    assert_eq!(pressure_neighbors(UVec3::new(0, 0, 0), UVec3::new(1, 1, 1)), vec![]);
}

#[test]
fn face_coupling_by_cell_kinds() {
    assert_eq!(face_coupling(CellType::Fluid, CellType::Fluid), FaceCoupling::Full);
    assert_eq!(face_coupling(CellType::Fluid, CellType::Air), FaceCoupling::FluidForward);
    assert_eq!(face_coupling(CellType::Air, CellType::Fluid), FaceCoupling::FluidBackward);
    assert_eq!(face_coupling(CellType::Air, CellType::Air), FaceCoupling::Skip);
    assert_eq!(face_coupling(CellType::Solid, CellType::Fluid), FaceCoupling::Skip);
    assert_eq!(face_coupling(CellType::Fluid, CellType::Solid), FaceCoupling::Skip);
}

#[test]
fn surface_decides_every_cell_but_solid_ones() {
    let mut cells = Grid3D::new(2, 1, 1, CellType::Air);
    cells.set(1, 0, 0, CellType::Solid);
    let mut inside = Grid3D::new(2, 1, 1, true);
    classify_by_surface(&mut cells, &inside);
    assert_eq!(cells.get(0, 0, 0), CellType::Fluid);
    assert_eq!(cells.get(1, 0, 0), CellType::Solid);
    inside.set(0, 0, 0, false);
    classify_by_surface(&mut cells, &inside);
    assert_eq!(cells.get(0, 0, 0), CellType::Air);
}
