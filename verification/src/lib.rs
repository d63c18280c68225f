//! Integer core of a FLIP fluid simulation: dense 3D grids, the particle
//! bucket grid and the cell and face rules of the solver, with the mesh
//! topology of the sphere that draws each particle.

pub mod vec3;
pub mod grid;
pub mod particle_grid;
pub mod faces;
pub mod cells;
pub mod sphere;
pub mod separation;
pub mod timing;
