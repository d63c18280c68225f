//! A dense 3D grid stored in one vector, x-major, and the kinds of cells the
//! solver distinguishes.

use vstd::prelude::*;
use crate::vec3::UVec3;

verus! {

/// Position of cell `(x, y, z)` in the storage of a grid of extent `d`.
pub open spec fn linear_index(d: UVec3, x: int, y: int, z: int) -> int {
    x * d.y * d.z + y * d.z + z
}

/// The cells of a grid of extent `d` are numbered `0..d.volume()`, one
/// number per cell, and no two cells share one.
pub proof fn lemma_linear_index_bounds(d: UVec3, x: int, y: int, z: int)
    requires
        0 <= x < d.x,
        0 <= y < d.y,
        0 <= z < d.z,
    ensures
        x * d.y * d.z <= linear_index(d, x, y, z) < (x + 1) * d.y * d.z,
        (x + 1) * d.y * d.z <= d.volume(),
        0 <= linear_index(d, x, y, z) < d.volume(),
{
    let dy = d.y as int;
    let dz = d.z as int;
    let dx = d.x as int;
    assert(x * dy * dz + y * dz + z < (x + 1) * dy * dz) by (nonlinear_arith)
        requires
            0 <= x,
            0 <= y < dy,
            0 <= z < dz,
    {
        assert(y * dz + z < (y + 1) * dz);
        assert((y + 1) * dz <= dy * dz);
        assert((x + 1) * dy * dz == x * dy * dz + dy * dz);
    }
    assert(0 <= x * dy * dz) by (nonlinear_arith)
        requires
            0 <= x,
            0 <= dy,
            0 <= dz,
    ;
    assert(0 <= y * dz) by (nonlinear_arith)
        requires
            0 <= y,
            0 <= dz,
    ;
    assert((x + 1) * dy * dz <= dx * dy * dz) by (nonlinear_arith)
        requires
            0 <= x < dx,
            0 <= dy,
            0 <= dz,
    ;
}

/// Two cells of one grid with the same storage position are the same cell.
pub proof fn lemma_linear_index_injective(d: UVec3, p: UVec3, q: UVec3)
    requires
        p.inside(d),
        q.inside(d),
        linear_index(d, p.x as int, p.y as int, p.z as int) == linear_index(
            d,
            q.x as int,
            q.y as int,
            q.z as int,
        ),
    ensures
        p == q,
{
    let dy = d.y as int;
    let dz = d.z as int;
    lemma_linear_index_bounds(d, p.x as int, p.y as int, p.z as int);
    lemma_linear_index_bounds(d, q.x as int, q.y as int, q.z as int);
    if p.x < q.x {
        assert((p.x + 1) * dy * dz <= q.x * dy * dz) by (nonlinear_arith)
            requires
                p.x + 1 <= q.x,
                0 <= dy,
                0 <= dz,
        ;
    } else if q.x < p.x {
        assert((q.x + 1) * dy * dz <= p.x * dy * dz) by (nonlinear_arith)
            requires
                q.x + 1 <= p.x,
                0 <= dy,
                0 <= dz,
        ;
    } else {
        let px = p.x as int;
        assert(p.y * dz + p.z == q.y * dz + q.z);
        if p.y < q.y {
            assert(p.y * dz + p.z < q.y * dz + q.z) by (nonlinear_arith)
                requires
                    p.y + 1 <= q.y,
                    0 <= p.z < dz,
                    0 <= q.z,
            {
                assert((p.y + 1) * dz <= q.y * dz);
            }
        } else if q.y < p.y {
            assert(q.y * dz + q.z < p.y * dz + p.z) by (nonlinear_arith)
                requires
                    q.y + 1 <= p.y,
                    0 <= q.z < dz,
                    0 <= p.z,
            {
                assert((q.y + 1) * dz <= p.y * dz);
            }
        }
        assert(p.y == q.y);
        assert(p.z == q.z);
    }
}

/// Every storage position below the number of cells belongs to a cell: with
/// the injectivity above, storage positions and cells correspond one to one.
pub proof fn lemma_linear_index_onto(d: UVec3, i: int) -> (p: UVec3)
    requires
        0 <= i < d.volume(),
    ensures
        p.inside(d),
        linear_index(d, p.x as int, p.y as int, p.z as int) == i,
{
    let dy = d.y as int;
    let dz = d.z as int;
    let dx = d.x as int;
    let plane = dy * dz;
    assert(dx * dy * dz == dx * plane) by (nonlinear_arith)
        requires
            plane == dy * dz,
    ;
    assert(plane > 0 && dz > 0 && dy > 0) by (nonlinear_arith)
        requires
            0 <= i < dx * plane,
            plane == dy * dz,
            dy >= 0,
            dz >= 0,
    ;
    let x = i / plane;
    let rest = i % plane;
    let y = rest / dz;
    let z = rest % dz;
    assert(i == x * plane + rest && 0 <= rest < plane) by (nonlinear_arith)
        requires
            plane > 0,
            x == i / plane,
            rest == i % plane,
    ;
    assert(rest == y * dz + z && 0 <= z < dz) by (nonlinear_arith)
        requires
            dz > 0,
            y == rest / dz,
            z == rest % dz,
    ;
    assert(0 <= x < dx) by (nonlinear_arith)
        requires
            0 <= i < dx * plane,
            plane > 0,
            i == x * plane + rest,
            0 <= rest < plane,
    ;
    assert(0 <= y < dy) by (nonlinear_arith)
        requires
            0 <= rest < dy * dz,
            dz > 0,
            rest == y * dz + z,
            0 <= z < dz,
    ;
    assert(x * plane == x * dy * dz) by (nonlinear_arith)
        requires
            plane == dy * dz,
    ;
    UVec3 { x: x as u32, y: y as u32, z: z as u32 }
}

/// Storage is x-major: the next cell along z is the next storage position,
/// the next along y is `d.z` positions on, and the next along x is
/// `d.y * d.z` positions on.
pub proof fn lemma_storage_is_x_major(d: UVec3, x: int, y: int, z: int)
    ensures
        linear_index(d, x, y, z + 1) == linear_index(d, x, y, z) + 1,
        linear_index(d, x, y + 1, z) == linear_index(d, x, y, z) + d.z,
        linear_index(d, x + 1, y, z) == linear_index(d, x, y, z) + d.y * d.z,
        linear_index(d, 0, 0, 0) == 0,
{
    assert((x + 1) * d.y * d.z == x * d.y * d.z + d.y * d.z) by (nonlinear_arith);
    assert((y + 1) * d.z == y * d.z + d.z) by (nonlinear_arith);
}

/// A storage position below the volume is reached without overflow by the
/// partial products of its computation.
proof fn lemma_linear_index_parts(d: UVec3, x: int, y: int, z: int)
    requires
        0 <= x,
        0 <= y,
        0 <= z,
        linear_index(d, x, y, z) < d.volume(),
    ensures
        d.z >= 1,
        x * d.y <= x * d.y * d.z,
        x * d.y * d.z <= linear_index(d, x, y, z),
        y * d.z <= linear_index(d, x, y, z),
{
    let dy = d.y as int;
    let dz = d.z as int;
    let dx = d.x as int;
    assert(0 <= x * dy * dz) by (nonlinear_arith)
        requires
            0 <= x,
            0 <= dy,
            0 <= dz,
    ;
    assert(0 <= y * dz) by (nonlinear_arith)
        requires
            0 <= y,
            0 <= dz,
    ;
    assert(dz >= 1) by (nonlinear_arith)
        requires
            0 <= x * dy * dz + y * dz + z < dx * dy * dz,
            0 <= dz,
    ;
    assert(x * dy <= x * dy * dz) by (nonlinear_arith)
        requires
            0 <= x,
            0 <= dy,
            1 <= dz,
    ;
}

/// Position of cell `(x, y, z)` in a flat array over a domain of extent
/// `dimensions`, x-major: the order in which a `Grid3D` stores its cells.
pub fn flat_index(dimensions: UVec3, x: u32, y: u32, z: u32) -> (r: usize)
    requires
        (UVec3 { x, y, z }).inside(dimensions),
        dimensions.volume() <= u32::MAX,
    ensures
        r == linear_index(dimensions, x as int, y as int, z as int),
        r < dimensions.volume(),
{
    proof {
        lemma_linear_index_bounds(dimensions, x as int, y as int, z as int);
        let dy = dimensions.y as int;
        let dz = dimensions.z as int;
        assert((x * dy + y) * dz + z == x * dy * dz + y * dz + z) by (nonlinear_arith);
        assert(x * dy + y <= (x * dy + y) * dz) by (nonlinear_arith)
            requires
                0 <= x * dy + y,
                1 <= dz,
        ;
        assert(0 <= x * dy) by (nonlinear_arith)
            requires
                0 <= x,
                0 <= dy,
        ;
        assert(x * dy <= x * dy + y);
    }
    ((x * dimensions.y + y) * dimensions.z + z) as usize
}

/// What a cell of the simulation domain holds.
#[derive(Clone, Copy, PartialEq, Eq, Structural, Debug)]
pub enum CellType {
    Air,
    Fluid,
    Solid,
}

/// A grid of extent `dimensions` holding one value per cell, with the value
/// that `clear` writes back.
pub struct Grid3D<T> {
    dimensions: UVec3,
    default_value: T,
    data: Vec<T>,
}

impl<T> Grid3D<T> {
    /// Extent of the grid.
    pub closed spec fn dims(self) -> UVec3 {
        self.dimensions
    }

    /// The value that `clear` writes into every cell.
    pub closed spec fn fill_value(self) -> T {
        self.default_value
    }

    /// The values of all cells, in storage order.
    pub closed spec fn cells(self) -> Seq<T> {
        self.data@
    }

    /// One value per cell.
    pub open spec fn wf(self) -> bool {
        self.cells().len() == self.dims().volume()
    }

    /// `(x, y, z)` names a stored value: its storage position lies below the
    /// number of cells.
    pub open spec fn reaches(self, x: int, y: int, z: int) -> bool {
        0 <= x && 0 <= y && 0 <= z && linear_index(self.dims(), x, y, z) < self.dims().volume()
    }

    /// The value stored for `(x, y, z)`.
    pub open spec fn at(self, x: int, y: int, z: int) -> T {
        self.cells()[linear_index(self.dims(), x, y, z)]
    }

    /// The value stored for cell `p`.
    pub open spec fn at_cell(self, p: UVec3) -> T {
        self.at(p.x as int, p.y as int, p.z as int)
    }
}

/// A cell inside the extent of a grid is reached by its coordinates.
pub proof fn lemma_inside_reaches<T>(g: Grid3D<T>, p: UVec3)
    requires
        p.inside(g.dims()),
    ensures
        g.reaches(p.x as int, p.y as int, p.z as int),
{
    lemma_linear_index_bounds(g.dims(), p.x as int, p.y as int, p.z as int);
}

/// After cell `p` of a grid is written with `v`, cell `p` reads `v` and every
/// other cell reads what it read before.
pub proof fn lemma_write_then_read<T>(g: Grid3D<T>, h: Grid3D<T>, p: UVec3, q: UVec3, v: T)
    requires
        g.wf(),
        p.inside(g.dims()),
        q.inside(g.dims()),
        h.dims() == g.dims(),
        h.cells() == g.cells().update(linear_index(g.dims(), p.x as int, p.y as int, p.z as int), v),
    ensures
        h.at_cell(q) == (if p == q {
            v
        } else {
            g.at_cell(q)
        }),
{
    lemma_inside_reaches(g, p);
    lemma_inside_reaches(g, q);
    if p != q {
        if linear_index(g.dims(), p.x as int, p.y as int, p.z as int) == linear_index(
            g.dims(),
            q.x as int,
            q.y as int,
            q.z as int,
        ) {
            lemma_linear_index_injective(g.dims(), p, q);
        }
    }
}

impl<T: Clone> Clone for Grid3D<T> {
    fn clone(&self) -> (r: Self)
        ensures
            r.dims() == self.dims(),
            cloned(self.fill_value(), r.fill_value()),
            r.cells().len() == self.cells().len(),
            forall|i: int| 0 <= i < self.cells().len() ==> cloned(self.cells()[i], #[trigger] r.cells()[i]),
    {
        Grid3D {
            dimensions: self.dimensions,
            default_value: self.default_value.clone(),
            data: self.data.clone(),
        }
    }
}

impl<T: Clone> Grid3D<T> {
    /// A grid of extent `(x, y, z)` with every cell a clone of `default_value`.
    pub fn new(x: u32, y: u32, z: u32, default_value: T) -> (r: Self)
        requires
            (UVec3 { x, y, z }).storable(),
        ensures
            r.wf(),
            r.dims() == (UVec3 { x, y, z }),
            cloned(default_value, r.fill_value()),
            forall|i: int| 0 <= i < r.cells().len() ==> cloned(default_value, #[trigger] r.cells()[i]),
    {
        let n = x as usize * y as usize * z as usize;
        Self { dimensions: UVec3::new(x, y, z), default_value: default_value.clone(), data: vec![default_value; n] }
    }

    /// Storage position of `(x, y, z)`.
    fn index(&self, x: u32, y: u32, z: u32) -> (r: usize)
        requires
            self.wf(),
            self.reaches(x as int, y as int, z as int),
        ensures
            r == linear_index(self.dims(), x as int, y as int, z as int),
            r < self.cells().len(),
    {
        proof {
            lemma_linear_index_parts(self.dims(), x as int, y as int, z as int);
            assert(self.data@.len() == self.data.len());
        }
        let x = x as usize;
        let y = y as usize;
        let z = z as usize;
        let dimensions_y = self.dimensions.y as usize;
        let dimensions_z = self.dimensions.z as usize;

        x * dimensions_y * dimensions_z + y * dimensions_z + z
    }

    /// Extent of the grid.
    pub fn dimensions(&self) -> (r: UVec3)
        ensures
            r == self.dims(),
    {
        self.dimensions
    }

    /// A clone of the value stored for `(x, y, z)`.
    pub fn get(&self, x: u32, y: u32, z: u32) -> (r: T)
        requires
            self.wf(),
            self.reaches(x as int, y as int, z as int),
        ensures
            cloned(self.at(x as int, y as int, z as int), r),
    {
        let index = self.index(x, y, z);
        self.data[index].clone()
    }

    /// The value stored for `(x, y, z)`, to be changed in place.
    pub fn get_mut(&mut self, x: u32, y: u32, z: u32) -> (r: &mut T)
        requires
            old(self).wf(),
            old(self).reaches(x as int, y as int, z as int),
        ensures
            *r == old(self).at(x as int, y as int, z as int),
            final(self).dims() == old(self).dims(),
            final(self).fill_value() == old(self).fill_value(),
            final(self).cells() == old(self).cells().update(
                linear_index(old(self).dims(), x as int, y as int, z as int),
                *final(r),
            ),
    {
        let index = self.index(x, y, z);
        &mut self.data[index]
    }

    /// Stores `value` for `(x, y, z)`, leaving every other stored value as it was.
    pub fn set(&mut self, x: u32, y: u32, z: u32, value: T)
        requires
            old(self).wf(),
            old(self).reaches(x as int, y as int, z as int),
        ensures
            final(self).dims() == old(self).dims(),
            final(self).fill_value() == old(self).fill_value(),
            final(self).cells() == old(self).cells().update(
                linear_index(old(self).dims(), x as int, y as int, z as int),
                value,
            ),
    {
        let index = self.index(x, y, z);
        self.data.set(index, value);
    }

    /// Writes a clone of the fill value into every cell.
    pub fn clear(&mut self)
        requires
            old(self).wf(),
        ensures
            final(self).wf(),
            final(self).dims() == old(self).dims(),
            final(self).fill_value() == old(self).fill_value(),
            forall|i: int|
                0 <= i < final(self).cells().len() ==> cloned(
                    old(self).fill_value(),
                    #[trigger] final(self).cells()[i],
                ),
    {
        let n = self.data.len();
        let mut i: usize = 0;
        while i < n
            invariant
                n == self.data.len(),
                self.wf(),
                i <= n,
                self.dims() == old(self).dims(),
                self.fill_value() == old(self).fill_value(),
                forall|j: int| 0 <= j < i ==> cloned(old(self).fill_value(), #[trigger] self.cells()[j]),
            decreases n - i,
        {
            let value = self.default_value.clone();
            self.data.set(i, value);
            i = i + 1;
        }
    }
}

impl Grid3D<CellType> {
    /// Whether the cell `(x, y, z)` is solid.
    pub fn check_wall(&self, x: u32, y: u32, z: u32) -> (r: bool)
        requires
            self.wf(),
            self.reaches(x as int, y as int, z as int),
        ensures
            r == (self.at(x as int, y as int, z as int) == CellType::Solid),
    {
        let cell_type = self.get(x, y, z);
        cell_type == CellType::Solid
    }
}

} // verus!
