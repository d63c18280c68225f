//! Rules on the cells of the pressure solve: the neighbours a cell couples
//! to, how a face between two cells enters the pressure gradient, and the
//! kind of a cell from the fluid surface.

use vstd::prelude::*;
use crate::vec3::{Axis, UVec3};
use crate::grid::{CellType, Grid3D, lemma_inside_reaches, lemma_write_then_read};

verus! {

/// `seq![v]` when `keep` holds, the empty sequence otherwise.
pub open spec fn kept(keep: bool, v: UVec3) -> Seq<UVec3> {
    if keep {
        seq![v]
    } else {
        seq![]
    }
}

/// The cells of a domain of extent `d` that share a face with cell `p`, in
/// the order back x, forward x, back y, forward y, back z, forward z.
pub open spec fn domain_neighbors(p: UVec3, d: UVec3) -> Seq<UVec3> {
    kept(p.x > 0, p.back(Axis::X)) + kept(p.x + 1 < d.x, p.forward(Axis::X)) + kept(p.y > 0, p.back(Axis::Y))
        + kept(p.y + 1 < d.y, p.forward(Axis::Y)) + kept(p.z > 0, p.back(Axis::Z)) + kept(
        p.z + 1 < d.z,
        p.forward(Axis::Z),
    )
}

/// Appends `v` to `r` when `keep` holds.
fn push_if(r: &mut Vec<UVec3>, keep: bool, v: UVec3)
    ensures
        final(r)@ == old(r)@ + kept(keep, v),
{
    if keep {
        r.push(v);
    }
    assert(final(r)@ =~= old(r)@ + kept(keep, v));
}

/// Every cell that shares a face with a cell of the domain lies in the domain.
proof fn lemma_domain_neighbors_inside(p: UVec3, d: UVec3)
    requires
        p.inside(d),
    ensures
        forall|k: int| 0 <= k < domain_neighbors(p, d).len() ==> #[trigger] domain_neighbors(p, d)[k].inside(d),
{
    let s1 = kept(p.x > 0, p.back(Axis::X));
    let s2 = s1 + kept(p.x + 1 < d.x, p.forward(Axis::X));
    let s3 = s2 + kept(p.y > 0, p.back(Axis::Y));
    let s4 = s3 + kept(p.y + 1 < d.y, p.forward(Axis::Y));
    let s5 = s4 + kept(p.z > 0, p.back(Axis::Z));
    let s6 = s5 + kept(p.z + 1 < d.z, p.forward(Axis::Z));
    assert(forall|k: int| 0 <= k < s1.len() ==> #[trigger] s1[k].inside(d));
    assert(forall|k: int| 0 <= k < s2.len() ==> #[trigger] s2[k].inside(d));
    assert(forall|k: int| 0 <= k < s3.len() ==> #[trigger] s3[k].inside(d));
    assert(forall|k: int| 0 <= k < s4.len() ==> #[trigger] s4[k].inside(d));
    assert(forall|k: int| 0 <= k < s5.len() ==> #[trigger] s5[k].inside(d));
    assert(forall|k: int| 0 <= k < s6.len() ==> #[trigger] s6[k].inside(d));
}

/// A value lies in a concatenation exactly when it lies in one of the parts.
proof fn lemma_concat_contains<A>(a: Seq<A>, b: Seq<A>, v: A)
    ensures
        (a + b).contains(v) <==> (a.contains(v) || b.contains(v)),
{
    if (a + b).contains(v) {
        let k = choose|k: int| 0 <= k < (a + b).len() && #[trigger] (a + b)[k] == v;
        if k < a.len() {
            assert(a[k] == v);
        } else {
            assert(b[k - a.len()] == v);
        }
    }
    if a.contains(v) {
        let k = choose|k: int| 0 <= k < a.len() && #[trigger] a[k] == v;
        assert((a + b)[k] == v);
    }
    if b.contains(v) {
        let k = choose|k: int| 0 <= k < b.len() && #[trigger] b[k] == v;
        assert((a + b)[k + a.len()] == v);
    }
}

/// Joining two sequences without repeats that share no value gives a
/// sequence without repeats.
proof fn lemma_concat_no_duplicates<A>(a: Seq<A>, b: Seq<A>)
    requires
        a.no_duplicates(),
        b.no_duplicates(),
        forall|v: A| a.contains(v) ==> !b.contains(v),
    ensures
        (a + b).no_duplicates(),
{
    let c = a + b;
    assert forall|i: int, j: int| 0 <= i < c.len() && 0 <= j < c.len() && i != j implies c[i] != c[j] by {
        if i < a.len() && j >= a.len() {
            assert(a.contains(c[i]));
            assert(b[j - a.len()] == c[j]);
        } else if j < a.len() && i >= a.len() {
            assert(a.contains(c[j]));
            assert(b[i - a.len()] == c[i]);
        } else if i < a.len() {
            assert(c[i] == a[i] && c[j] == a[j]);
        } else {
            assert(c[i] == b[i - a.len()] && c[j] == b[j - a.len()]);
        }
    }
}

proof fn lemma_kept(keep: bool, v: UVec3)
    ensures
        forall|q: UVec3| #[trigger] kept(keep, v).contains(q) <==> keep && q == v,
        kept(keep, v).no_duplicates(),
{
    if keep {
        assert(kept(keep, v)[0] == v);
    }
}

/// The pressure matrix couples a cell to exactly the cells of the domain
/// that share a face with it, each once: cell `q` is listed exactly when it
/// lies in the domain and differs from `p` by one along exactly one axis.
pub proof fn lemma_pressure_neighbors_share_a_face(p: UVec3, d: UVec3)
    requires
        p.inside(d),
    ensures
        forall|q: UVec3| #[trigger] domain_neighbors(p, d).contains(q) <==> q.inside(d) && p.unit_apart(q),
        domain_neighbors(p, d).no_duplicates(),
{
    let k1 = kept(p.x > 0, p.back(Axis::X));
    let k2 = kept(p.x + 1 < d.x, p.forward(Axis::X));
    let k3 = kept(p.y > 0, p.back(Axis::Y));
    let k4 = kept(p.y + 1 < d.y, p.forward(Axis::Y));
    let k5 = kept(p.z > 0, p.back(Axis::Z));
    let k6 = kept(p.z + 1 < d.z, p.forward(Axis::Z));
    lemma_kept(p.x > 0, p.back(Axis::X));
    lemma_kept(p.x + 1 < d.x, p.forward(Axis::X));
    lemma_kept(p.y > 0, p.back(Axis::Y));
    lemma_kept(p.y + 1 < d.y, p.forward(Axis::Y));
    lemma_kept(p.z > 0, p.back(Axis::Z));
    lemma_kept(p.z + 1 < d.z, p.forward(Axis::Z));
    let s2 = k1 + k2;
    let s3 = s2 + k3;
    let s4 = s3 + k4;
    let s5 = s4 + k5;
    let s6 = s5 + k6;
    assert(s6 == domain_neighbors(p, d));
    assert forall|q: UVec3| #[trigger] s6.contains(q) <==> (k1.contains(q) || k2.contains(q) || k3.contains(q)
        || k4.contains(q) || k5.contains(q) || k6.contains(q)) by {
        lemma_concat_contains(k1, k2, q);
        lemma_concat_contains(s2, k3, q);
        lemma_concat_contains(s3, k4, q);
        lemma_concat_contains(s4, k5, q);
        lemma_concat_contains(s5, k6, q);
    }
    assert forall|q: UVec3| #[trigger] s6.contains(q) <==> q.inside(d) && p.unit_apart(q) by {
        assert(s6.contains(q) <==> (k1.contains(q) || k2.contains(q) || k3.contains(q) || k4.contains(q)
            || k5.contains(q) || k6.contains(q)));
    }
    assert forall|v: UVec3| k1.contains(v) implies !k2.contains(v) by {}
    lemma_concat_no_duplicates(k1, k2);
    assert forall|v: UVec3| s2.contains(v) implies !k3.contains(v) by {
        lemma_concat_contains(k1, k2, v);
    }
    lemma_concat_no_duplicates(s2, k3);
    assert forall|v: UVec3| s3.contains(v) implies !k4.contains(v) by {
        lemma_concat_contains(k1, k2, v);
        lemma_concat_contains(s2, k3, v);
    }
    lemma_concat_no_duplicates(s3, k4);
    assert forall|v: UVec3| s4.contains(v) implies !k5.contains(v) by {
        lemma_concat_contains(k1, k2, v);
        lemma_concat_contains(s2, k3, v);
        lemma_concat_contains(s3, k4, v);
    }
    lemma_concat_no_duplicates(s4, k5);
    assert forall|v: UVec3| s5.contains(v) implies !k6.contains(v) by {
        lemma_concat_contains(k1, k2, v);
        lemma_concat_contains(s2, k3, v);
        lemma_concat_contains(s3, k4, v);
        lemma_concat_contains(s4, k5, v);
    }
    lemma_concat_no_duplicates(s5, k6);
}

/// The cells of the domain that share a face with cell `position`, which
/// the pressure matrix couples to it.
pub fn pressure_neighbors(position: UVec3, dimensions: UVec3) -> (r: Vec<UVec3>)
    requires
        position.inside(dimensions),
    ensures
        r@ == domain_neighbors(position, dimensions),
        forall|k: int| 0 <= k < r@.len() ==> #[trigger] r@[k].inside(dimensions),
{
    let mut r: Vec<UVec3> = Vec::new();
    let x = position.x;
    let y = position.y;
    let z = position.z;
    push_if(&mut r, x > 0, UVec3 { x: if x > 0 { x - 1 } else { 0 }, y, z });
    push_if(&mut r, x + 1 < dimensions.x, UVec3 { x: if x + 1 < dimensions.x { x + 1 } else { 0 }, y, z });
    push_if(&mut r, y > 0, UVec3 { x, y: if y > 0 { y - 1 } else { 0 }, z });
    push_if(&mut r, y + 1 < dimensions.y, UVec3 { x, y: if y + 1 < dimensions.y { y + 1 } else { 0 }, z });
    push_if(&mut r, z > 0, UVec3 { x, y, z: if z > 0 { z - 1 } else { 0 } });
    push_if(&mut r, z + 1 < dimensions.z, UVec3 { x, y, z: if z + 1 < dimensions.z { z + 1 } else { 0 } });
    assert(r@ =~= domain_neighbors(position, dimensions));
    proof {
        lemma_domain_neighbors_inside(position, dimensions);
    }
    r
}

/// How the face between a cell and the cell behind it enters the pressure
/// gradient.
#[derive(Clone, Copy, PartialEq, Eq, Structural, Debug)]
pub enum FaceCoupling {
    /// The face takes no pressure correction.
    Skip,
    /// Fluid in front, air behind: the face is weighted by the fraction of
    /// it inside the fluid, seen from the front cell.
    FluidForward,
    /// Air in front, fluid behind: the face is weighted by the fraction of
    /// it inside the fluid, seen from the back cell.
    FluidBackward,
    /// Fluid on both sides: the full face.
    Full,
}

/// The coupling of a face with a `forward` cell in front and a `backward`
/// cell behind: none when one of them is solid or neither is fluid.
pub open spec fn coupling_of(forward: CellType, backward: CellType) -> FaceCoupling {
    if forward == CellType::Solid || backward == CellType::Solid || (forward != CellType::Fluid
        && backward != CellType::Fluid) {
        FaceCoupling::Skip
    } else if forward == CellType::Fluid && backward == CellType::Air {
        FaceCoupling::FluidForward
    } else if forward == CellType::Air && backward == CellType::Fluid {
        FaceCoupling::FluidBackward
    } else {
        FaceCoupling::Full
    }
}

/// How the face between the cells of kinds `forward_type` (in front) and
/// `backward_type` (behind) enters the pressure gradient.
pub fn face_coupling(forward_type: CellType, backward_type: CellType) -> (r: FaceCoupling)
    ensures
        r == coupling_of(forward_type, backward_type),
{
    if forward_type == CellType::Solid || backward_type == CellType::Solid || (forward_type
        != CellType::Fluid && backward_type != CellType::Fluid) {
        return FaceCoupling::Skip;
    }
    match (forward_type, backward_type) {
        (CellType::Fluid, CellType::Air) => FaceCoupling::FluidForward,
        (CellType::Air, CellType::Fluid) => FaceCoupling::FluidBackward,
        _ => FaceCoupling::Full,
    }
}

/// The kind a cell takes from the fluid surface: a solid cell stays solid,
/// any other cell is fluid when its centre lies inside the fluid and air
/// otherwise.
pub open spec fn surface_kind(before: CellType, inside_fluid: bool) -> CellType {
    if before == CellType::Solid {
        CellType::Solid
    } else if inside_fluid {
        CellType::Fluid
    } else {
        CellType::Air
    }
}

/// Gives every cell that is not solid the kind the fluid surface calls for:
/// fluid where `inside_fluid` holds, air elsewhere.
pub fn classify_by_surface(cell_types: &mut Grid3D<CellType>, inside_fluid: &Grid3D<bool>)
    requires
        old(cell_types).wf(),
        inside_fluid.wf(),
        inside_fluid.dims() == old(cell_types).dims(),
    ensures
        final(cell_types).wf(),
        final(cell_types).dims() == old(cell_types).dims(),
        final(cell_types).fill_value() == old(cell_types).fill_value(),
        forall|p: UVec3|
            p.inside(old(cell_types).dims()) ==> #[trigger] final(cell_types).at_cell(p) == surface_kind(
                old(cell_types).at_cell(p),
                inside_fluid.at_cell(p),
            ),
{
    let dims = cell_types.dimensions();
    let ghost start = *cell_types;
    let mut x: u32 = 0;
    while x < dims.x
        invariant
            inside_fluid.wf(),
            inside_fluid.dims() == dims,
            start.dims() == dims,
            cell_types.wf(),
            cell_types.dims() == dims,
            cell_types.fill_value() == start.fill_value(),
            x <= dims.x,
            forall|p: UVec3|
                p.inside(dims) ==> #[trigger] cell_types.at_cell(p) == (if p.x < x {
                    surface_kind(start.at_cell(p), inside_fluid.at_cell(p))
                } else {
                    start.at_cell(p)
                }),
        decreases dims.x - x,
    {
        let mut y: u32 = 0;
        while y < dims.y
            invariant
                inside_fluid.wf(),
                inside_fluid.dims() == dims,
                start.dims() == dims,
                cell_types.wf(),
                cell_types.dims() == dims,
                cell_types.fill_value() == start.fill_value(),
                x < dims.x,
                y <= dims.y,
                forall|p: UVec3|
                    p.inside(dims) ==> #[trigger] cell_types.at_cell(p) == (if p.x < x || (p.x == x && p.y
                        < y) {
                        surface_kind(start.at_cell(p), inside_fluid.at_cell(p))
                    } else {
                        start.at_cell(p)
                    }),
            decreases dims.y - y,
        {
            let mut z: u32 = 0;
            while z < dims.z
                invariant
                    inside_fluid.wf(),
                    inside_fluid.dims() == dims,
                    start.dims() == dims,
                    cell_types.wf(),
                    cell_types.dims() == dims,
                    cell_types.fill_value() == start.fill_value(),
                    x < dims.x,
                    y < dims.y,
                    z <= dims.z,
                    forall|p: UVec3|
                        p.inside(dims) ==> #[trigger] cell_types.at_cell(p) == (if p.x < x || (p.x == x
                            && p.y < y) || (p.x == x && p.y == y && p.z < z) {
                            surface_kind(start.at_cell(p), inside_fluid.at_cell(p))
                        } else {
                            start.at_cell(p)
                        }),
                decreases dims.z - z,
            {
                let cell = UVec3::new(x, y, z);
                proof {
                    lemma_inside_reaches(*cell_types, cell);
                    lemma_inside_reaches(*inside_fluid, cell);
                }
                assert(cell_types.at_cell(cell) == start.at_cell(cell));
                let current = cell_types.get(x, y, z);
                assert(current == start.at_cell(cell));
                if current != CellType::Solid {
                    let inside = inside_fluid.get(x, y, z);
                    let kind = if inside {
                        CellType::Fluid
                    } else {
                        CellType::Air
                    };
                    assert(kind == surface_kind(start.at_cell(cell), inside_fluid.at_cell(cell)));
                    let ghost before = *cell_types;
                    cell_types.set(x, y, z, kind);
                    proof {
                        assert forall|p: UVec3| p.inside(dims) implies #[trigger] cell_types.at_cell(p) == (if p.x
                            < x || (p.x == x && p.y < y) || (p.x == x && p.y == y && p.z < z + 1) {
                            surface_kind(start.at_cell(p), inside_fluid.at_cell(p))
                        } else {
                            start.at_cell(p)
                        }) by {
                            lemma_write_then_read(before, *cell_types, cell, p, kind);
                        }
                    }
                }
                z = z + 1;
            }
            y = y + 1;
        }
        x = x + 1;
    }
}

/// A face takes no pressure correction when it touches a solid cell or has
/// no fluid on either side; between two fluid cells it takes the full
/// correction; between fluid and air it is weighted from the fluid side,
/// whichever side that is.
pub proof fn lemma_face_coupling_rules(forward: CellType, backward: CellType)
    ensures
        forward == CellType::Solid ==> coupling_of(forward, backward) == FaceCoupling::Skip,
        backward == CellType::Solid ==> coupling_of(forward, backward) == FaceCoupling::Skip,
        forward != CellType::Fluid && backward != CellType::Fluid ==> coupling_of(forward, backward)
            == FaceCoupling::Skip,
        forward == CellType::Fluid && backward == CellType::Fluid ==> coupling_of(forward, backward)
            == FaceCoupling::Full,
        forward == CellType::Fluid && backward == CellType::Air ==> coupling_of(forward, backward)
            == FaceCoupling::FluidForward,
        forward == CellType::Air && backward == CellType::Fluid ==> coupling_of(forward, backward)
            == FaceCoupling::FluidBackward,
        coupling_of(forward, backward) == FaceCoupling::FluidForward <==> coupling_of(backward, forward)
            == FaceCoupling::FluidBackward,
{
}

/// Classifying by the fluid surface never makes or unmakes a solid cell:
/// a cell solid before is solid after, whatever the surface says; any other
/// cell becomes fluid exactly when it lies inside the fluid, and air
/// otherwise.
pub proof fn lemma_surface_keeps_solids(
    before: Grid3D<CellType>,
    inside_fluid: Grid3D<bool>,
    after: Grid3D<CellType>,
    p: UVec3,
)
    requires
        p.inside(before.dims()),
        forall|q: UVec3|
            q.inside(before.dims()) ==> #[trigger] after.at_cell(q) == surface_kind(
                before.at_cell(q),
                inside_fluid.at_cell(q),
            ),
    ensures
        before.at_cell(p) == CellType::Solid ==> after.at_cell(p) == CellType::Solid,
        before.at_cell(p) != CellType::Solid ==> after.at_cell(p) != CellType::Solid,
        before.at_cell(p) != CellType::Solid ==> (after.at_cell(p) == CellType::Fluid <==> inside_fluid.at_cell(p)),
        before.at_cell(p) != CellType::Solid ==> (after.at_cell(p) == CellType::Air <==> !inside_fluid.at_cell(p)),
{
    assert(after.at_cell(p) == surface_kind(before.at_cell(p), inside_fluid.at_cell(p)));
}

} // verus!
