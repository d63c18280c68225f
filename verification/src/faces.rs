//! The faces of the staggered velocity grid: which faces carry no flow,
//! which cells a face separates, and how validity spreads to neighbouring
//! faces when velocities are extended past the fluid.

use vstd::prelude::*;
use crate::vec3::{Axis, UVec3};
use crate::grid::{CellType, Grid3D, lemma_inside_reaches, lemma_write_then_read};

verus! {

/// Extent of the grid of faces normal to `axis` in a domain of extent `d`:
/// one more face than cells along `axis`.
pub open spec fn face_extent(d: UVec3, axis: Axis) -> UVec3 {
    d.forward(axis)
}

/// Face `f`, normal to `axis`, carries no flow: it lies on the boundary of
/// the domain, or one of the two cells it separates is solid.
pub open spec fn face_is_wall(cell_types: Grid3D<CellType>, axis: Axis, f: UVec3) -> bool {
    ||| f.comp(axis) == 0
    ||| f.comp(axis) == cell_types.dims().comp(axis)
    ||| cell_types.at_cell(f) == CellType::Solid
    ||| cell_types.at_cell(f.back(axis)) == CellType::Solid
}

/// An interior face separates two cells of the domain.
proof fn lemma_interior_face_cells(cell_types: Grid3D<CellType>, axis: Axis, f: UVec3)
    requires
        f.inside(face_extent(cell_types.dims(), axis)),
        0 < f.comp(axis) < cell_types.dims().comp(axis),
    ensures
        f.inside(cell_types.dims()),
        f.back(axis).inside(cell_types.dims()),
{
}

/// The two cells separated by face `position`, normal to `axis`, in a domain
/// of extent `dims`: the cell behind it, unless the face lies on the lower
/// boundary, and the cell in front of it, unless it lies on the upper one.
pub fn face_adjacent_cells(position: UVec3, axis: Axis, dims: UVec3) -> (r: (Option<UVec3>, Option<UVec3>))
    ensures
        r.0 == (if position.comp(axis) > 0 {
            Some(position.back(axis))
        } else {
            None::<UVec3>
        }),
        r.1 == (if position.comp(axis) < dims.comp(axis) {
            Some(position)
        } else {
            None::<UVec3>
        }),
{
    let negative = if position.get(axis) > 0 {
        Some(position.step_back(axis))
    } else {
        None
    };
    let positive = if position.get(axis) < dims.get(axis) {
        Some(position)
    } else {
        None
    };
    (negative, positive)
}

/// Whether face `f`, normal to `axis`, carries no flow: it misses a cell on
/// one side, or one of its two cells is solid.
fn face_blocked(cell_types: &Grid3D<CellType>, axis: Axis, f: UVec3) -> (r: bool)
    requires
        cell_types.wf(),
        cell_types.dims().comp(axis) < u32::MAX,
        f.inside(face_extent(cell_types.dims(), axis)),
    ensures
        r == face_is_wall(*cell_types, axis, f),
{
    let (negative, positive) = face_adjacent_cells(f, axis, cell_types.dimensions());
    match (negative, positive) {
        (Some(behind), Some(front)) => {
            proof {
                lemma_interior_face_cells(*cell_types, axis, f);
                lemma_inside_reaches(*cell_types, front);
                lemma_inside_reaches(*cell_types, behind);
            }
            cell_types.check_wall(front.x, front.y, front.z) || cell_types.check_wall(
                behind.x,
                behind.y,
                behind.z,
            )
        },
        _ => true,
    }
}

/// Every face of `velocity` that carries no flow is set to `zero`; every
/// other face keeps its value.
pub open spec fn boundary_enforced<T>(
    before: Grid3D<T>,
    after: Grid3D<T>,
    cell_types: Grid3D<CellType>,
    axis: Axis,
    zero: T,
) -> bool {
    &&& after.wf()
    &&& after.dims() == before.dims()
    &&& after.fill_value() == before.fill_value()
    &&& forall|f: UVec3|
        f.inside(before.dims()) ==> #[trigger] after.at_cell(f) == (if face_is_wall(cell_types, axis, f) {
            zero
        } else {
            before.at_cell(f)
        })
}

/// Sets to `zero` the velocity on every face normal to `axis` that lies on
/// the boundary of the domain or touches a solid cell.
pub fn enforce_boundary_component<T: Copy>(
    velocity: &mut Grid3D<T>,
    cell_types: &Grid3D<CellType>,
    axis: Axis,
    zero: T,
)
    requires
        old(velocity).wf(),
        cell_types.wf(),
        cell_types.dims().comp(axis) < u32::MAX,
        old(velocity).dims() == face_extent(cell_types.dims(), axis),
    ensures
        boundary_enforced(*old(velocity), *final(velocity), *cell_types, axis, zero),
{
    let face_dims = velocity.dimensions();
    let ghost start = *velocity;
    let mut x: u32 = 0;
    while x < face_dims.x
        invariant
            cell_types.wf(),
            cell_types.dims().comp(axis) < u32::MAX,
            face_dims == start.dims(),
            face_dims == face_extent(cell_types.dims(), axis),
            velocity.wf(),
            velocity.dims() == start.dims(),
            velocity.fill_value() == start.fill_value(),
            x <= face_dims.x,
            forall|f: UVec3|
                f.inside(face_dims) ==> #[trigger] velocity.at_cell(f) == (if f.x < x && face_is_wall(
                    *cell_types,
                    axis,
                    f,
                ) {
                    zero
                } else {
                    start.at_cell(f)
                }),
        decreases face_dims.x - x,
    {
        let mut y: u32 = 0;
        while y < face_dims.y
            invariant
                cell_types.wf(),
                cell_types.dims().comp(axis) < u32::MAX,
                face_dims == start.dims(),
                face_dims == face_extent(cell_types.dims(), axis),
                velocity.wf(),
                velocity.dims() == start.dims(),
                velocity.fill_value() == start.fill_value(),
                x < face_dims.x,
                y <= face_dims.y,
                forall|f: UVec3|
                    f.inside(face_dims) ==> #[trigger] velocity.at_cell(f) == (if (f.x < x || (f.x == x
                        && f.y < y)) && face_is_wall(*cell_types, axis, f) {
                        zero
                    } else {
                        start.at_cell(f)
                    }),
            decreases face_dims.y - y,
        {
            let mut z: u32 = 0;
            while z < face_dims.z
                invariant
                    cell_types.wf(),
                    cell_types.dims().comp(axis) < u32::MAX,
                    face_dims == start.dims(),
                    face_dims == face_extent(cell_types.dims(), axis),
                    velocity.wf(),
                    velocity.dims() == start.dims(),
                    velocity.fill_value() == start.fill_value(),
                    x < face_dims.x,
                    y < face_dims.y,
                    z <= face_dims.z,
                    forall|f: UVec3|
                        f.inside(face_dims) ==> #[trigger] velocity.at_cell(f) == (if (f.x < x || (f.x == x
                            && f.y < y) || (f.x == x && f.y == y && f.z < z)) && face_is_wall(
                            *cell_types,
                            axis,
                            f,
                        ) {
                            zero
                        } else {
                            start.at_cell(f)
                        }),
                decreases face_dims.z - z,
            {
                let face = UVec3::new(x, y, z);
                if face_blocked(cell_types, axis, face) {
                    let ghost before = *velocity;
                    proof {
                        lemma_inside_reaches(*velocity, face);
                    }
                    velocity.set(x, y, z, zero);
                    proof {
                        assert forall|f: UVec3| f.inside(face_dims) implies #[trigger] velocity.at_cell(f) == (if (f.x
                            < x || (f.x == x && f.y < y) || (f.x == x && f.y == y && f.z < z + 1))
                            && face_is_wall(*cell_types, axis, f) {
                            zero
                        } else {
                            start.at_cell(f)
                        }) by {
                            lemma_write_then_read(before, *velocity, face, f, zero);
                        }
                    }
                }
                z = z + 1;
            }
            y = y + 1;
        }
        x = x + 1;
    }
}

/// Sets to `zero` the velocity on every face of the three face grids that
/// lies on the boundary of the domain or touches a solid cell.
pub fn enforce_boundary_velocities<T: Copy>(
    u_x: &mut Grid3D<T>,
    u_y: &mut Grid3D<T>,
    u_z: &mut Grid3D<T>,
    cell_types: &Grid3D<CellType>,
    zero: T,
)
    requires
        old(u_x).wf(),
        old(u_y).wf(),
        old(u_z).wf(),
        cell_types.wf(),
        cell_types.dims().x < u32::MAX,
        cell_types.dims().y < u32::MAX,
        cell_types.dims().z < u32::MAX,
        old(u_x).dims() == face_extent(cell_types.dims(), Axis::X),
        old(u_y).dims() == face_extent(cell_types.dims(), Axis::Y),
        old(u_z).dims() == face_extent(cell_types.dims(), Axis::Z),
    ensures
        boundary_enforced(*old(u_x), *final(u_x), *cell_types, Axis::X, zero),
        boundary_enforced(*old(u_y), *final(u_y), *cell_types, Axis::Y, zero),
        boundary_enforced(*old(u_z), *final(u_z), *cell_types, Axis::Z, zero),
{
    enforce_boundary_component(u_x, cell_types, Axis::X, zero);
    enforce_boundary_component(u_y, cell_types, Axis::Y, zero);
    enforce_boundary_component(u_z, cell_types, Axis::Z, zero);
}

/// Marks every face normal to `axis` that lies on the boundary of the domain
/// or touches a solid cell; such faces take no extended velocity.
pub fn wall_marks(cell_types: &Grid3D<CellType>, axis: Axis) -> (r: Grid3D<bool>)
    requires
        cell_types.wf(),
        cell_types.dims().comp(axis) < u32::MAX,
        face_extent(cell_types.dims(), axis).storable(),
    ensures
        r.wf(),
        r.dims() == face_extent(cell_types.dims(), axis),
        forall|f: UVec3| f.inside(r.dims()) ==> #[trigger] r.at_cell(f) == face_is_wall(*cell_types, axis, f),
{
    let dims = cell_types.dimensions();
    let face_dims = match axis {
        Axis::X => UVec3::new(dims.x + 1, dims.y, dims.z),
        Axis::Y => UVec3::new(dims.x, dims.y + 1, dims.z),
        Axis::Z => UVec3::new(dims.x, dims.y, dims.z + 1),
    };
    let mut marks = Grid3D::new(face_dims.x, face_dims.y, face_dims.z, false);
    let mut x: u32 = 0;
    while x < face_dims.x
        invariant
            cell_types.wf(),
            cell_types.dims().comp(axis) < u32::MAX,
            face_dims == face_extent(cell_types.dims(), axis),
            marks.wf(),
            marks.dims() == face_dims,
            x <= face_dims.x,
            forall|f: UVec3|
                f.inside(face_dims) && f.x < x ==> #[trigger] marks.at_cell(f) == face_is_wall(
                    *cell_types,
                    axis,
                    f,
                ),
        decreases face_dims.x - x,
    {
        let mut y: u32 = 0;
        while y < face_dims.y
            invariant
                cell_types.wf(),
                cell_types.dims().comp(axis) < u32::MAX,
                face_dims == face_extent(cell_types.dims(), axis),
                marks.wf(),
                marks.dims() == face_dims,
                x < face_dims.x,
                y <= face_dims.y,
                forall|f: UVec3|
                    f.inside(face_dims) && (f.x < x || (f.x == x && f.y < y)) ==> #[trigger] marks.at_cell(f)
                        == face_is_wall(*cell_types, axis, f),
            decreases face_dims.y - y,
        {
            let mut z: u32 = 0;
            while z < face_dims.z
                invariant
                    cell_types.wf(),
                    cell_types.dims().comp(axis) < u32::MAX,
                    face_dims == face_extent(cell_types.dims(), axis),
                    marks.wf(),
                    marks.dims() == face_dims,
                    x < face_dims.x,
                    y < face_dims.y,
                    z <= face_dims.z,
                    forall|f: UVec3|
                        f.inside(face_dims) && (f.x < x || (f.x == x && f.y < y) || (f.x == x && f.y == y
                            && f.z < z)) ==> #[trigger] marks.at_cell(f) == face_is_wall(*cell_types, axis, f),
                decreases face_dims.z - z,
            {
                let face = UVec3::new(x, y, z);
                let blocked = face_blocked(cell_types, axis, face);
                let ghost before = marks;
                proof {
                    lemma_inside_reaches(marks, face);
                }
                marks.set(x, y, z, blocked);
                proof {
                    assert forall|f: UVec3|
                        f.inside(face_dims) && (f.x < x || (f.x == x && f.y < y) || (f.x == x && f.y == y
                            && f.z < z + 1)) implies #[trigger] marks.at_cell(f) == face_is_wall(
                        *cell_types,
                        axis,
                        f,
                    ) by {
                        lemma_write_then_read(before, marks, face, f, blocked);
                    }
                }
                z = z + 1;
            }
            y = y + 1;
        }
        x = x + 1;
    }
    marks
}

/// The six faces whose validity a face `p` of a face grid of extent
/// `face_dims` draws on when velocities are extended: one step back and one
/// step forward along each axis, stopping at the edges of the grid.
pub open spec fn extension_neighbors(p: UVec3, face_dims: UVec3) -> Seq<UVec3> {
    let top = face_dims.dec();
    seq![
        p.sat_sub(UVec3 { x: 1, y: 0, z: 0 }),
        p.plus(UVec3 { x: 1, y: 0, z: 0 }).min_with(top),
        p.sat_sub(UVec3 { x: 0, y: 1, z: 0 }),
        p.plus(UVec3 { x: 0, y: 1, z: 0 }).min_with(top),
        p.sat_sub(UVec3 { x: 0, y: 0, z: 1 }),
        p.plus(UVec3 { x: 0, y: 0, z: 1 }).min_with(top),
    ]
}

/// The neighbours of face `position` that velocity extension reads, in the
/// order back x, forward x, back y, forward y, back z, forward z.
pub fn extension_neighbor_faces(position: UVec3, face_dims: UVec3) -> (r: [UVec3; 6])
    requires
        position.inside(face_dims),
    ensures
        r@ == extension_neighbors(position, face_dims),
        forall|k: int| 0 <= k < 6 ==> #[trigger] r@[k].inside(face_dims),
{
    let top = face_dims.minus_one();
    let r = [
        position.saturating_sub(UVec3::unit(Axis::X)),
        position.sum(UVec3::unit(Axis::X)).component_min(top),
        position.saturating_sub(UVec3::unit(Axis::Y)),
        position.sum(UVec3::unit(Axis::Y)).component_min(top),
        position.saturating_sub(UVec3::unit(Axis::Z)),
        position.sum(UVec3::unit(Axis::Z)).component_min(top),
    ];
    assert(r@ =~= extension_neighbors(position, face_dims));
    r
}

/// Face `f` becomes valid in one round of velocity extension: it was valid,
/// or it is no wall and one of its extension neighbours was valid.
pub open spec fn valid_after_round(valid: Grid3D<bool>, walls: Grid3D<bool>, f: UVec3) -> bool {
    valid.at_cell(f) || (!walls.at_cell(f) && exists|k: int|
        0 <= k < 6 && valid.at_cell(#[trigger] extension_neighbors(f, valid.dims())[k]))
}

/// `after` is the validity of the faces after one round of extension from `before`.
pub open spec fn extended_once(before: Grid3D<bool>, walls: Grid3D<bool>, after: Grid3D<bool>) -> bool {
    &&& after.wf()
    &&& after.dims() == before.dims()
    &&& forall|f: UVec3| f.inside(after.dims()) ==> #[trigger] after.at_cell(f) == valid_after_round(before, walls, f)
}

/// The validity of the faces after one round of velocity extension: a face
/// that was invalid and is no wall becomes valid when one of its extension
/// neighbours was valid before the round.
pub fn extend_valid(valid: &Grid3D<bool>, walls: &Grid3D<bool>) -> (r: Grid3D<bool>)
    requires
        valid.wf(),
        walls.wf(),
        walls.dims() == valid.dims(),
    ensures
        extended_once(*valid, *walls, r),
{
    let face_dims = valid.dimensions();
    let mut result = valid.clone();
    assert forall|f: UVec3| f.inside(face_dims) implies #[trigger] result.at_cell(f) == valid.at_cell(f) by {
        lemma_inside_reaches(*valid, f);
    }
    let mut x: u32 = 0;
    while x < face_dims.x
        invariant
            valid.wf(),
            walls.wf(),
            walls.dims() == face_dims,
            face_dims == valid.dims(),
            result.wf(),
            result.dims() == face_dims,
            x <= face_dims.x,
            forall|f: UVec3|
                f.inside(face_dims) ==> #[trigger] result.at_cell(f) == (if f.x < x {
                    valid_after_round(*valid, *walls, f)
                } else {
                    valid.at_cell(f)
                }),
        decreases face_dims.x - x,
    {
        let mut y: u32 = 0;
        while y < face_dims.y
            invariant
                valid.wf(),
                walls.wf(),
                walls.dims() == face_dims,
                face_dims == valid.dims(),
                result.wf(),
                result.dims() == face_dims,
                x < face_dims.x,
                y <= face_dims.y,
                forall|f: UVec3|
                    f.inside(face_dims) ==> #[trigger] result.at_cell(f) == (if f.x < x || (f.x == x && f.y
                        < y) {
                        valid_after_round(*valid, *walls, f)
                    } else {
                        valid.at_cell(f)
                    }),
            decreases face_dims.y - y,
        {
            let mut z: u32 = 0;
            while z < face_dims.z
                invariant
                    valid.wf(),
                    walls.wf(),
                    walls.dims() == face_dims,
                    face_dims == valid.dims(),
                    result.wf(),
                    result.dims() == face_dims,
                    x < face_dims.x,
                    y < face_dims.y,
                    z <= face_dims.z,
                    forall|f: UVec3|
                        f.inside(face_dims) ==> #[trigger] result.at_cell(f) == (if f.x < x || (f.x == x
                            && f.y < y) || (f.x == x && f.y == y && f.z < z) {
                            valid_after_round(*valid, *walls, f)
                        } else {
                            valid.at_cell(f)
                        }),
                decreases face_dims.z - z,
            {
                let face = UVec3::new(x, y, z);
                proof {
                    lemma_inside_reaches(*valid, face);
                }
                let was_valid = valid.get(x, y, z);
                let is_wall = walls.get(x, y, z);
                let mut becomes_valid = was_valid;
                if !was_valid && !is_wall {
                    let neighbors = extension_neighbor_faces(face, face_dims);
                    let mut k: usize = 0;
                    while k < 6
                        invariant
                            valid.wf(),
                            face_dims == valid.dims(),
                            neighbors@ == extension_neighbors(face, face_dims),
                            forall|j: int| 0 <= j < 6 ==> #[trigger] neighbors@[j].inside(face_dims),
                            k <= 6,
                            becomes_valid == exists|j: int| 0 <= j < k && valid.at_cell(#[trigger] neighbors@[j]),
                        decreases 6 - k,
                    {
                        let neighbor = neighbors[k];
                        proof {
                            assert(neighbors@[k as int].inside(face_dims));
                            lemma_inside_reaches(*valid, neighbor);
                        }
                        if valid.get(neighbor.x, neighbor.y, neighbor.z) {
                            becomes_valid = true;
                        }
                        assert(becomes_valid == exists|j: int| 0 <= j < k + 1 && valid.at_cell(#[trigger] neighbors@[j]))
                            by {
                            if valid.at_cell(neighbor) {
                                assert(neighbors@[k as int] == neighbor);
                            }
                        }
                        k = k + 1;
                    }
                }
                assert(becomes_valid == valid_after_round(*valid, *walls, face));
                let ghost before = result;
                proof {
                    lemma_inside_reaches(result, face);
                }
                result.set(x, y, z, becomes_valid);
                proof {
                    assert forall|f: UVec3| f.inside(face_dims) implies #[trigger] result.at_cell(f) == (if f.x < x
                        || (f.x == x && f.y < y) || (f.x == x && f.y == y && f.z < z + 1) {
                        valid_after_round(*valid, *walls, f)
                    } else {
                        valid.at_cell(f)
                    }) by {
                        lemma_write_then_read(before, result, face, f, becomes_valid);
                    }
                }
                z = z + 1;
            }
            y = y + 1;
        }
        x = x + 1;
    }
    result
}

/// Lower corner, along one axis, of the samples that trilinear interpolation
/// reads around a point whose cell along that axis is `coordinate`: the
/// cell itself, held back to `dimension - 2` so that the next sample still
/// lies in a grid of `dimension >= 2` samples.
pub fn interpolation_base(coordinate: u32, dimension: u32) -> (r: u32)
    ensures
        r == (if dimension >= 2 && coordinate <= dimension - 2 {
            coordinate
        } else if dimension >= 2 {
            (dimension - 2) as u32
        } else {
            0
        }),
        dimension >= 2 ==> r + 1 < dimension,
{
    let top = if dimension >= 2 {
        dimension - 2
    } else {
        0
    };
    if coordinate <= top {
        coordinate
    } else {
        top
    }
}

/// The extension neighbours of a face of a face grid lie in the grid.
proof fn lemma_extension_neighbors_inside(f: UVec3, d: UVec3)
    requires
        f.inside(d),
    ensures
        forall|j: int| 0 <= j < 6 ==> #[trigger] extension_neighbors(f, d)[j].inside(d),
{
    assert forall|j: int| 0 <= j < 6 implies #[trigger] extension_neighbors(f, d)[j].inside(d) by {
        let s = extension_neighbors(f, d);
        assert(s[0] == f.sat_sub(UVec3 { x: 1, y: 0, z: 0 }));
        assert(s[1] == f.plus(UVec3 { x: 1, y: 0, z: 0 }).min_with(d.dec()));
        assert(s[2] == f.sat_sub(UVec3 { x: 0, y: 1, z: 0 }));
        assert(s[3] == f.plus(UVec3 { x: 0, y: 1, z: 0 }).min_with(d.dec()));
        assert(s[4] == f.sat_sub(UVec3 { x: 0, y: 0, z: 1 }));
        assert(s[5] == f.plus(UVec3 { x: 0, y: 0, z: 1 }).min_with(d.dec()));
    }
}

/// Face `a` is one of the extension neighbours that face `b` reads.
pub open spec fn feeds(a: UVec3, b: UVec3, d: UVec3) -> bool {
    exists|j: int| 0 <= j < 6 && #[trigger] extension_neighbors(b, d)[j] == a
}

/// `path` leads from a valid face through faces that are no walls, each
/// face an extension neighbour of the next.
pub open spec fn extension_path(valid: Grid3D<bool>, walls: Grid3D<bool>, path: Seq<UVec3>) -> bool {
    &&& path.len() >= 1
    &&& forall|t: int| 0 <= t < path.len() ==> #[trigger] path[t].inside(valid.dims())
    &&& valid.at_cell(path[0])
    &&& forall|t: int| 1 <= t < path.len() ==> !walls.at_cell(#[trigger] path[t]) && feeds(
        path[t - 1],
        path[t],
        valid.dims(),
    )
}

/// Face `f` is at most `k` steps from a valid face.
pub open spec fn reachable_within(valid: Grid3D<bool>, walls: Grid3D<bool>, f: UVec3, k: nat) -> bool {
    exists|path: Seq<UVec3>|
        #[trigger] extension_path(valid, walls, path) && path.len() <= k + 1 && path.last() == f
}

/// `rounds` are successive rounds of extension: each grid is one round of
/// extension from the one before.
pub open spec fn successive_rounds(rounds: Seq<Grid3D<bool>>, walls: Grid3D<bool>) -> bool {
    &&& rounds.len() >= 1
    &&& rounds[0].wf()
    &&& walls.dims() == rounds[0].dims()
    &&& forall|t: int| 0 <= t < rounds.len() - 1 ==> extended_once(#[trigger] rounds[t], walls, rounds[t + 1])
}

proof fn lemma_rounds_dims(rounds: Seq<Grid3D<bool>>, walls: Grid3D<bool>, n: int)
    requires
        successive_rounds(rounds, walls),
        0 <= n < rounds.len(),
    ensures
        rounds[n].dims() == rounds[0].dims(),
        rounds[n].wf(),
    decreases n,
{
    if n > 0 {
        lemma_rounds_dims(rounds, walls, n - 1);
        assert(extended_once(rounds[n - 1], walls, rounds[n]));
    }
}

proof fn lemma_rounds_reach(rounds: Seq<Grid3D<bool>>, walls: Grid3D<bool>, n: int, f: UVec3)
    requires
        successive_rounds(rounds, walls),
        0 <= n < rounds.len(),
        f.inside(rounds[0].dims()),
    ensures
        rounds[n].at_cell(f) <==> reachable_within(rounds[0], walls, f, n as nat),
    decreases n,
{
    let valid = rounds[0];
    let d = valid.dims();
    if n == 0 {
        if valid.at_cell(f) {
            let path = seq![f];
            assert(extension_path(valid, walls, path));
        }
        if reachable_within(valid, walls, f, 0) {
            let path = choose|path: Seq<UVec3>|
                #[trigger] extension_path(valid, walls, path) && path.len() <= 1 && path.last() == f;
            assert(path[0] == f);
        }
    } else {
        lemma_rounds_dims(rounds, walls, n - 1);
        lemma_rounds_dims(rounds, walls, n);
        let before = rounds[n - 1];
        assert(extended_once(before, walls, rounds[n]));
        assert(rounds[n].at_cell(f) == valid_after_round(before, walls, f));
        lemma_rounds_reach(rounds, walls, n - 1, f);
        lemma_extension_neighbors_inside(f, d);
        if rounds[n].at_cell(f) {
            if before.at_cell(f) {
                let path = choose|path: Seq<UVec3>|
                    #[trigger] extension_path(valid, walls, path) && path.len() <= n && path.last() == f;
                assert(extension_path(valid, walls, path) && path.len() <= n + 1 && path.last() == f);
            } else {
                let j = choose|j: int| 0 <= j < 6 && before.at_cell(#[trigger] extension_neighbors(f, d)[j]);
                let g = extension_neighbors(f, d)[j];
                lemma_rounds_reach(rounds, walls, n - 1, g);
                let path = choose|path: Seq<UVec3>|
                    #[trigger] extension_path(valid, walls, path) && path.len() <= n && path.last() == g;
                let longer = path.push(f);
                assert(feeds(g, f, d));
                assert forall|t: int| 1 <= t < longer.len() implies !walls.at_cell(#[trigger] longer[t]) && feeds(
                    longer[t - 1],
                    longer[t],
                    d,
                ) by {
                    if t < path.len() {
                        assert(longer[t] == path[t] && longer[t - 1] == path[t - 1]);
                    }
                }
                assert(forall|t: int| 0 <= t < longer.len() ==> #[trigger] longer[t].inside(d));
                assert(extension_path(valid, walls, longer));
                assert(longer.len() <= n + 1 && longer.last() == f);
            }
        }
        if reachable_within(valid, walls, f, n as nat) {
            let path = choose|path: Seq<UVec3>|
                #[trigger] extension_path(valid, walls, path) && path.len() <= n + 1 && path.last() == f;
            if path.len() <= n {
                assert(reachable_within(valid, walls, f, (n - 1) as nat));
                assert(before.at_cell(f));
            } else {
                let m = path.len() - 1;
                let prefix = path.drop_last();
                let g = path[m - 1];
                assert(prefix.last() == g);
                assert(forall|t: int| 0 <= t < prefix.len() ==> prefix[t] == path[t]);
                assert forall|t: int| 1 <= t < prefix.len() implies !walls.at_cell(#[trigger] prefix[t]) && feeds(
                    prefix[t - 1],
                    prefix[t],
                    d,
                ) by {
                    assert(prefix[t] == path[t] && prefix[t - 1] == path[t - 1]);
                    assert(!walls.at_cell(path[t]));
                }
                assert(forall|t: int| 0 <= t < prefix.len() ==> #[trigger] prefix[t].inside(d)) by {
                    assert(forall|t: int| 0 <= t < prefix.len() ==> prefix[t] == path[t]);
                }
                assert(extension_path(valid, walls, prefix));
                assert(path[m].inside(d));
                assert(g.inside(d));
                lemma_rounds_reach(rounds, walls, n - 1, g);
                assert(before.at_cell(g));
                assert(!walls.at_cell(path[m]) && feeds(path[m - 1], path[m], d));
                let j = choose|j: int| 0 <= j < 6 && #[trigger] extension_neighbors(f, d)[j] == g;
                assert(before.at_cell(extension_neighbors(f, d)[j]));
            }
        }
    }
}

/// After `k` rounds of velocity extension, a face is valid exactly when it
/// is at most `k` steps from a face valid at the start: a path leads to it
/// from such a face through faces that are no walls, each step from a face
/// to one that reads it.
pub proof fn lemma_rounds_reach_within_steps(rounds: Seq<Grid3D<bool>>, walls: Grid3D<bool>, f: UVec3)
    requires
        successive_rounds(rounds, walls),
        f.inside(rounds[0].dims()),
    ensures
        rounds.last().at_cell(f) <==> reachable_within(rounds[0], walls, f, (rounds.len() - 1) as nat),
{
    lemma_rounds_reach(rounds, walls, rounds.len() - 1, f);
}

/// A round of velocity extension keeps every valid face valid, and leaves
/// the validity of every wall face as it was.
pub proof fn lemma_extension_grows_validity_off_walls(valid: Grid3D<bool>, walls: Grid3D<bool>, f: UVec3)
    requires
        f.inside(valid.dims()),
    ensures
        valid.at_cell(f) ==> valid_after_round(valid, walls, f),
        walls.at_cell(f) ==> valid_after_round(valid, walls, f) == valid.at_cell(f),
{
}

/// The faces marked as walls for velocity extension are exactly the faces
/// that boundary enforcement sets to zero: on a marked face the enforced
/// velocity is `zero`, on any other face it is the velocity from before.
pub proof fn lemma_wall_marks_are_enforced_faces<T>(
    marks: Grid3D<bool>,
    before: Grid3D<T>,
    after: Grid3D<T>,
    cell_types: Grid3D<CellType>,
    axis: Axis,
    zero: T,
    f: UVec3,
)
    requires
        marks.dims() == before.dims(),
        forall|g: UVec3| g.inside(marks.dims()) ==> #[trigger] marks.at_cell(g) == face_is_wall(cell_types, axis, g),
        boundary_enforced(before, after, cell_types, axis, zero),
        f.inside(marks.dims()),
    ensures
        marks.at_cell(f) ==> after.at_cell(f) == zero,
        !marks.at_cell(f) ==> after.at_cell(f) == before.at_cell(f),
{
    assert(marks.at_cell(f) == face_is_wall(cell_types, axis, f));
    assert(after.at_cell(f) == (if face_is_wall(cell_types, axis, f) {
        zero
    } else {
        before.at_cell(f)
    }));
}

/// The faces that velocity extension reads around face `f` are exactly the
/// faces at unit distance along one axis, together with `f` itself where
/// the grid ends: the face behind along every axis where there is one, and
/// the face in front along every axis where there is one.
pub proof fn lemma_extension_neighbors_are_adjacent_faces(f: UVec3, face_dims: UVec3)
    requires
        f.inside(face_dims),
    ensures
        forall|a: Axis| f.comp(a) > 0 ==> #[trigger] extension_neighbors(f, face_dims).contains(f.back(a)),
        forall|a: Axis|
            f.comp(a) + 1 < face_dims.comp(a) ==> #[trigger] extension_neighbors(f, face_dims).contains(
                f.forward(a),
            ),
        forall|j: int|
            0 <= j < 6 ==> #[trigger] extension_neighbors(f, face_dims)[j] == f || (extension_neighbors(
                f,
                face_dims,
            )[j].inside(face_dims) && f.unit_apart(extension_neighbors(f, face_dims)[j])),
{
    let s = extension_neighbors(f, face_dims);
    assert(s[0] == f.sat_sub(UVec3 { x: 1, y: 0, z: 0 }));
    assert(s[1] == f.plus(UVec3 { x: 1, y: 0, z: 0 }).min_with(face_dims.dec()));
    assert(s[2] == f.sat_sub(UVec3 { x: 0, y: 1, z: 0 }));
    assert(s[3] == f.plus(UVec3 { x: 0, y: 1, z: 0 }).min_with(face_dims.dec()));
    assert(s[4] == f.sat_sub(UVec3 { x: 0, y: 0, z: 1 }));
    assert(s[5] == f.plus(UVec3 { x: 0, y: 0, z: 1 }).min_with(face_dims.dec()));
    assert forall|a: Axis| f.comp(a) > 0 implies #[trigger] s.contains(f.back(a)) by {
        match a {
            Axis::X => assert(s[0] == f.back(a)),
            Axis::Y => assert(s[2] == f.back(a)),
            Axis::Z => assert(s[4] == f.back(a)),
        }
    }
    assert forall|a: Axis| f.comp(a) + 1 < face_dims.comp(a) implies #[trigger] s.contains(f.forward(a)) by {
        match a {
            Axis::X => assert(s[1] == f.forward(a)),
            Axis::Y => assert(s[3] == f.forward(a)),
            Axis::Z => assert(s[5] == f.forward(a)),
        }
    }
}

/// One round of velocity extension makes a face valid exactly when it was
/// valid, or it is no wall and a face at unit distance from it along one
/// axis was valid.
pub proof fn lemma_one_round_reads_adjacent_faces(valid: Grid3D<bool>, walls: Grid3D<bool>, f: UVec3)
    requires
        f.inside(valid.dims()),
    ensures
        valid_after_round(valid, walls, f) <==> (valid.at_cell(f) || (!walls.at_cell(f) && exists|q: UVec3|
            q.inside(valid.dims()) && f.unit_apart(q) && #[trigger] valid.at_cell(q))),
{
    let d = valid.dims();
    let s = extension_neighbors(f, d);
    lemma_extension_neighbors_are_adjacent_faces(f, d);
    if valid_after_round(valid, walls, f) && !valid.at_cell(f) {
        let j = choose|j: int| 0 <= j < 6 && valid.at_cell(#[trigger] extension_neighbors(f, d)[j]);
        assert(s[j] == f || (s[j].inside(d) && f.unit_apart(s[j])));
        assert(s[j] != f);
        assert(valid.at_cell(s[j]));
    }
    if !valid.at_cell(f) && !walls.at_cell(f) && exists|q: UVec3|
        q.inside(d) && f.unit_apart(q) && #[trigger] valid.at_cell(q) {
        let q = choose|q: UVec3| q.inside(d) && f.unit_apart(q) && #[trigger] valid.at_cell(q);
        let a = if q.x != f.x {
            Axis::X
        } else if q.y != f.y {
            Axis::Y
        } else {
            Axis::Z
        };
        if q.comp(a) + 1 == f.comp(a) {
            assert(q == f.back(a));
            assert(s.contains(f.back(a)));
        } else {
            assert(q == f.forward(a));
            assert(s.contains(f.forward(a)));
        }
        let j = choose|j: int| 0 <= j < s.len() && s[j] == q;
        assert(valid.at_cell(extension_neighbors(f, d)[j]));
    }
}

/// Boundary enforcement zeroes exactly the faces that carry no flow: every
/// face on the boundary of the domain, every interior face with a solid
/// cell on either side; an interior face between two cells neither of which
/// is solid keeps its velocity.
pub proof fn lemma_enforcement_zeroes_exactly_walls<T>(
    before: Grid3D<T>,
    after: Grid3D<T>,
    cell_types: Grid3D<CellType>,
    axis: Axis,
    zero: T,
    f: UVec3,
)
    requires
        boundary_enforced(before, after, cell_types, axis, zero),
        f.inside(before.dims()),
    ensures
        f.comp(axis) == 0 || f.comp(axis) == cell_types.dims().comp(axis) ==> after.at_cell(f) == zero,
        cell_types.at_cell(f) == CellType::Solid ==> after.at_cell(f) == zero,
        f.comp(axis) > 0 && cell_types.at_cell(f.back(axis)) == CellType::Solid ==> after.at_cell(f) == zero,
        0 < f.comp(axis) < cell_types.dims().comp(axis) && cell_types.at_cell(f) != CellType::Solid
            && cell_types.at_cell(f.back(axis)) != CellType::Solid ==> after.at_cell(f) == before.at_cell(f),
{
    assert(after.at_cell(f) == (if face_is_wall(cell_types, axis, f) {
        zero
    } else {
        before.at_cell(f)
    }));
}

} // verus!
