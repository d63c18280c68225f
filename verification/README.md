# fluid_simulation

A FLIP fluid simulation whose integer core is verified with Verus.

- `src/` is the verified library:
  - `vec3`: cell positions and grid extents (`UVec3`, `Axis`).
  - `grid`: `Grid3D<T>`, a dense x-major grid, with the laws that tie cells
    to storage positions one to one and a write to the reads that follow it;
    `CellType`.
  - `particle_grid`: `ParticleGrid`, which sorts particles into one bucket
    per occupied cell, answers box queries around a cell, and marks cell
    kinds from particle types; with the laws that a box query returns
    exactly, and once each, the particles whose cells lie in the box.
  - `faces`: the staggered face grids: which faces carry no flow, how
    boundary enforcement zeroes them, and how validity spreads when
    velocities are extended past the fluid (after k rounds, exactly to the
    faces within k steps of a valid face).
  - `cells`: the neighbours of a cell in the pressure solve, the coupling of
    a face in the pressure gradient, and cell kinds from the fluid surface.
  - `sphere`: the triangle list of the UV sphere drawn for each particle.
  - `separation`: the direction that pushes two coincident particles apart.
  - `timing`: the fixed-rate clock: how much of a frame is counted, and how
    many fixed steps the counted time pays for.
- `app/` is the program: the floating-point solver (particle transfer,
  pressure solve by preconditioned conjugate gradients, advection), which
  calls the library for every decision on cells, faces and buckets; the
  window and GPU renderer (winit, wgpu, egui) that draws the particles while
  the solver steps at a fixed rate; and a headless benchmark driver.
