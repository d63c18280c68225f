//! The direction in which two particles that sit on top of each other are
//! pushed apart.

use vstd::prelude::*;

verus! {

/// A unit direction along one of the axes.
#[derive(Clone, Copy, PartialEq, Eq, Structural, Debug)]
pub enum Direction {
    PositiveX,
    NegativeX,
    PositiveY,
    NegativeY,
    PositiveZ,
    NegativeZ,
}

/// The hash of a pair of particle indices that picks their separation
/// direction.
pub open spec fn overlap_hash(a: usize, b: usize) -> usize {
    a.wrapping_mul(73_856_093) ^ b.wrapping_mul(19_349_663)
}

/// The direction picked by hash `h`: its remainder modulo six, in the order
/// +x, -x, +y, -y, +z, -z.
pub open spec fn direction_of(h: usize) -> Direction {
    let r = h % 6;
    if r == 0 {
        Direction::PositiveX
    } else if r == 1 {
        Direction::NegativeX
    } else if r == 2 {
        Direction::PositiveY
    } else if r == 3 {
        Direction::NegativeY
    } else if r == 4 {
        Direction::PositiveZ
    } else {
        Direction::NegativeZ
    }
}

/// The direction in which particle `a` is pushed away from particle `b`
/// when the two coincide.
pub fn overlap_direction(a: usize, b: usize) -> (r: Direction)
    ensures
        r == direction_of(overlap_hash(a, b)),
{
    let hash = a.wrapping_mul(73_856_093) ^ b.wrapping_mul(19_349_663);

    match hash % 6 {
        0 => Direction::PositiveX,
        1 => Direction::NegativeX,
        2 => Direction::PositiveY,
        3 => Direction::NegativeY,
        4 => Direction::PositiveZ,
        _ => Direction::NegativeZ,
    }
}

} // verus!
