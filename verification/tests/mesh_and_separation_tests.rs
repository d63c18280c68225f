use fluid_simulation::separation::{overlap_direction, Direction};
use fluid_simulation::sphere::create_uv_sphere_indices;

#[test]
fn single_quad_sphere_has_two_triangles() {
    assert_eq!(create_uv_sphere_indices(1, 1), vec![0, 1, 2, 1, 3, 2]);
}

#[test]
fn sphere_indices_go_stack_by_stack() {
    let indices = create_uv_sphere_indices(2, 3);
    assert_eq!(indices.len(), 36);
    assert_eq!(&indices[0..6], &[0, 1, 4, 1, 5, 4]);
    assert_eq!(&indices[30..36], &[6, 7, 10, 7, 11, 10]);
    assert!(indices.iter().all(|&i| i < 12));
    assert_eq!(create_uv_sphere_indices(0, 5), Vec::<u32>::new());
}

#[test]
fn overlap_direction_follows_the_pair_hash() {
    assert_eq!(overlap_direction(0, 0), Direction::PositiveX);
    assert_eq!(overlap_direction(1, 0), Direction::NegativeZ);
    assert_eq!(overlap_direction(0, 1), Direction::NegativeZ);
    assert_eq!(overlap_direction(1, 1), Direction::PositiveX);
    assert_eq!(overlap_direction(2, 3), Direction::NegativeY);
    assert_eq!(overlap_direction(7, 11), Direction::PositiveZ);
}

#[test]
fn overlap_direction_wraps_large_indices() {
    if usize::BITS == 64 {
        assert_eq!(overlap_direction(12_345_678_901, 98_765), Direction::PositiveZ);
    }
}
