//! Triples of unsigned 32-bit components: a cell or face position, or the
//! extent of a grid along its three axes.

use vstd::prelude::*;

verus! {

/// A position or an extent in a 3D grid.
#[derive(Clone, Copy, PartialEq, Eq, Structural, Debug)]
pub struct UVec3 {
    pub x: u32,
    pub y: u32,
    pub z: u32,
}

/// One of the three axes of the grid.
#[derive(Clone, Copy, PartialEq, Eq, Structural, Debug)]
pub enum Axis {
    X,
    Y,
    Z,
}

impl UVec3 {
    /// Number of cells of a grid with this extent.
    pub open spec fn volume(self) -> int {
        self.x * self.y * self.z
    }

    /// A grid of this extent can be laid out in memory: the number of its
    /// cells, and the partial product `x * y` it is computed from, fit in a
    /// `usize`.
    pub open spec fn storable(self) -> bool {
        self.x * self.y <= usize::MAX && self.x * self.y * self.z <= usize::MAX
    }

    /// The component along `axis`.
    pub open spec fn comp(self, axis: Axis) -> u32 {
        match axis {
            Axis::X => self.x,
            Axis::Y => self.y,
            Axis::Z => self.z,
        }
    }

    /// `self` is a cell of a grid of extent `dims`.
    pub open spec fn inside(self, dims: UVec3) -> bool {
        self.x < dims.x && self.y < dims.y && self.z < dims.z
    }

    /// `self` and `other` differ by one along exactly one axis: they are
    /// cells that share a face.
    pub open spec fn unit_apart(self, other: UVec3) -> bool {
        ||| (self.y == other.y && self.z == other.z && (self.x + 1 == other.x || other.x + 1 == self.x))
        ||| (self.x == other.x && self.z == other.z && (self.y + 1 == other.y || other.y + 1 == self.y))
        ||| (self.x == other.x && self.y == other.y && (self.z + 1 == other.z || other.z + 1 == self.z))
    }

    /// Every component of `self` is at most the one of `other`.
    pub open spec fn le(self, other: UVec3) -> bool {
        self.x <= other.x && self.y <= other.y && self.z <= other.z
    }

    /// Componentwise difference, stopping at zero.
    pub open spec fn sat_sub(self, other: UVec3) -> UVec3 {
        UVec3 {
            x: if self.x >= other.x { (self.x - other.x) as u32 } else { 0 },
            y: if self.y >= other.y { (self.y - other.y) as u32 } else { 0 },
            z: if self.z >= other.z { (self.z - other.z) as u32 } else { 0 },
        }
    }

    /// Componentwise sum, each component below `2^32`.
    pub open spec fn plus(self, other: UVec3) -> UVec3 {
        UVec3 {
            x: (self.x + other.x) as u32,
            y: (self.y + other.y) as u32,
            z: (self.z + other.z) as u32,
        }
    }

    /// No component of `self + other` overflows.
    pub open spec fn sum_fits(self, other: UVec3) -> bool {
        self.x + other.x <= u32::MAX && self.y + other.y <= u32::MAX && self.z + other.z <= u32::MAX
    }

    /// Componentwise minimum.
    pub open spec fn min_with(self, other: UVec3) -> UVec3 {
        UVec3 {
            x: if self.x <= other.x { self.x } else { other.x },
            y: if self.y <= other.y { self.y } else { other.y },
            z: if self.z <= other.z { self.z } else { other.z },
        }
    }

    /// Componentwise `self - 1`, each component positive.
    pub open spec fn dec(self) -> UVec3 {
        UVec3 { x: (self.x - 1) as u32, y: (self.y - 1) as u32, z: (self.z - 1) as u32 }
    }

    /// Componentwise `self + 1`, each component below `u32::MAX`.
    pub open spec fn inc(self) -> UVec3 {
        UVec3 { x: (self.x + 1) as u32, y: (self.y + 1) as u32, z: (self.z + 1) as u32 }
    }

    /// Every component is positive.
    pub open spec fn positive(self) -> bool {
        self.x >= 1 && self.y >= 1 && self.z >= 1
    }

    /// `self` with the component along `axis` replaced by `v`.
    pub open spec fn with(self, axis: Axis, v: u32) -> UVec3 {
        match axis {
            Axis::X => UVec3 { x: v, ..self },
            Axis::Y => UVec3 { y: v, ..self },
            Axis::Z => UVec3 { z: v, ..self },
        }
    }

    /// One step back along `axis`; the component must be positive.
    pub open spec fn back(self, axis: Axis) -> UVec3 {
        self.with(axis, (self.comp(axis) - 1) as u32)
    }

    /// One step forward along `axis`; the component must stay below `2^32`.
    pub open spec fn forward(self, axis: Axis) -> UVec3 {
        self.with(axis, (self.comp(axis) + 1) as u32)
    }

    pub fn new(x: u32, y: u32, z: u32) -> (r: UVec3)
        ensures
            r == (UVec3 { x, y, z }),
    {
        UVec3 { x, y, z }
    }

    /// The triple with all three components equal to `v`.
    pub fn splat(v: u32) -> (r: UVec3)
        ensures
            r == (UVec3 { x: v, y: v, z: v }),
    {
        UVec3 { x: v, y: v, z: v }
    }

    /// The unit step along `axis`.
    pub open spec fn unit_of(axis: Axis) -> UVec3 {
        match axis {
            Axis::X => UVec3 { x: 1, y: 0, z: 0 },
            Axis::Y => UVec3 { x: 0, y: 1, z: 0 },
            Axis::Z => UVec3 { x: 0, y: 0, z: 1 },
        }
    }

    /// The unit step along `axis`.
    pub fn unit(axis: Axis) -> (r: UVec3)
        ensures
            r == UVec3::unit_of(axis),
    {
        match axis {
            Axis::X => UVec3 { x: 1, y: 0, z: 0 },
            Axis::Y => UVec3 { x: 0, y: 1, z: 0 },
            Axis::Z => UVec3 { x: 0, y: 0, z: 1 },
        }
    }

    /// The component along `axis`.
    pub fn get(self, axis: Axis) -> (r: u32)
        ensures
            r == self.comp(axis),
    {
        match axis {
            Axis::X => self.x,
            Axis::Y => self.y,
            Axis::Z => self.z,
        }
    }

    /// Componentwise difference, stopping at zero.
    pub fn saturating_sub(self, other: UVec3) -> (r: UVec3)
        ensures
            r == self.sat_sub(other),
    {
        UVec3 {
            x: if self.x >= other.x { self.x - other.x } else { 0 },
            y: if self.y >= other.y { self.y - other.y } else { 0 },
            z: if self.z >= other.z { self.z - other.z } else { 0 },
        }
    }

    /// Componentwise sum; no component may overflow.
    pub fn sum(self, other: UVec3) -> (r: UVec3)
        requires
            self.sum_fits(other),
        ensures
            r == self.plus(other),
    {
        UVec3 { x: self.x + other.x, y: self.y + other.y, z: self.z + other.z }
    }

    /// Componentwise minimum.
    pub fn component_min(self, other: UVec3) -> (r: UVec3)
        ensures
            r == self.min_with(other),
    {
        UVec3 {
            x: if self.x <= other.x { self.x } else { other.x },
            y: if self.y <= other.y { self.y } else { other.y },
            z: if self.z <= other.z { self.z } else { other.z },
        }
    }

    /// Componentwise `self - 1`; every component must be positive.
    pub fn minus_one(self) -> (r: UVec3)
        requires
            self.positive(),
        ensures
            r == self.dec(),
    {
        UVec3 { x: self.x - 1, y: self.y - 1, z: self.z - 1 }
    }

    /// One step back along `axis`; the component must be positive.
    pub fn step_back(self, axis: Axis) -> (r: UVec3)
        requires
            self.comp(axis) >= 1,
        ensures
            r == self.back(axis),
    {
        match axis {
            Axis::X => UVec3 { x: self.x - 1, ..self },
            Axis::Y => UVec3 { y: self.y - 1, ..self },
            Axis::Z => UVec3 { z: self.z - 1, ..self },
        }
    }

    /// One step forward along `axis`; the component must stay below `2^32`.
    pub fn step_forward(self, axis: Axis) -> (r: UVec3)
        requires
            self.comp(axis) < u32::MAX,
        ensures
            r == self.forward(axis),
    {
        match axis {
            Axis::X => UVec3 { x: self.x + 1, ..self },
            Axis::Y => UVec3 { y: self.y + 1, ..self },
            Axis::Z => UVec3 { z: self.z + 1, ..self },
        }
    }

    /// Largest of the three components.
    pub fn max_element(self) -> (r: u32)
        ensures
            r >= self.x && r >= self.y && r >= self.z,
            r == self.x || r == self.y || r == self.z,
    {
        let m = if self.x >= self.y { self.x } else { self.y };
        if m >= self.z { m } else { self.z }
    }
}

} // verus!
