//! Topology of the UV sphere drawn for each particle: its vertices form
//! `stacks + 1` rings of `slices + 1` each, and every quad between two rings
//! is cut into two triangles.

use vstd::prelude::*;

verus! {

/// Number of vertices of a UV sphere with `stacks` stacks and `slices` slices.
pub open spec fn sphere_vertex_count(stacks: int, slices: int) -> int {
    (stacks + 1) * (slices + 1)
}

/// Corner `j` (of six) of the two triangles of quad `(stack, slice)`: with
/// `t` the quad's top-left vertex and `b` its bottom-left one, the
/// triangles are `(t, t + 1, b)` and `(t + 1, b + 1, b)`.
pub open spec fn quad_corner(slices: int, stack: int, slice: int, j: int) -> int {
    let top_left = stack * (slices + 1) + slice;
    let bottom_left = (stack + 1) * (slices + 1) + slice;
    if j == 0 {
        top_left
    } else if j == 1 {
        top_left + 1
    } else if j == 2 {
        bottom_left
    } else if j == 3 {
        top_left + 1
    } else if j == 4 {
        bottom_left + 1
    } else {
        bottom_left
    }
}

/// Position of corner `j` of quad `(stack, slice)` in the index list.
pub open spec fn corner_position(slices: int, stack: int, slice: int, j: int) -> int {
    6 * (stack * slices + slice) + j
}

proof fn lemma_quad_bounds(stacks: int, slices: int, stack: int, slice: int)
    requires
        0 <= stack < stacks,
        0 <= slice < slices,
    ensures
        0 <= stack * (slices + 1) + slice,
        (stack + 1) * (slices + 1) + slice + 1 < sphere_vertex_count(stacks, slices),
        (stack + 1) * (slices + 1) == stack * (slices + 1) + slices + 1,
        stack * slices + slice < stacks * slices,
        (stack * slices + slice) + 1 == stack * slices + (slice + 1),
        stack * slices + slices == (stack + 1) * slices,
{
    assert(0 <= stack * (slices + 1)) by (nonlinear_arith)
        requires
            0 <= stack,
            0 <= slices,
    ;
    assert((stack + 1) * (slices + 1) == stack * (slices + 1) + slices + 1) by (nonlinear_arith);
    assert((stack + 1) * (slices + 1) <= stacks * (slices + 1)) by (nonlinear_arith)
        requires
            stack + 1 <= stacks,
            0 <= slices,
    ;
    assert(stacks * (slices + 1) + slices + 1 == (stacks + 1) * (slices + 1)) by (nonlinear_arith);
    assert(stack * slices + slice < stacks * slices) by (nonlinear_arith)
        requires
            0 <= stack < stacks,
            0 <= slice < slices,
    {
        assert(stack * slices + slices <= stacks * slices);
    }
    assert(stack * slices + slices == (stack + 1) * slices) by (nonlinear_arith);
}

/// The triangle list of a UV sphere with `stacks` stacks and `slices`
/// slices: six vertex indices per quad, quads taken stack by stack and,
/// within a stack, slice by slice.
pub fn create_uv_sphere_indices(stacks: u32, slices: u32) -> (r: Vec<u32>)
    requires
        sphere_vertex_count(stacks as int, slices as int) <= u32::MAX,
        6 * stacks * slices <= u32::MAX,
    ensures
        r@.len() == 6 * stacks * slices,
        forall|stack: int, slice: int, j: int|
            0 <= stack < stacks && 0 <= slice < slices && 0 <= j < 6 ==> r@[#[trigger] corner_position(
                slices as int,
                stack,
                slice,
                j,
            )] == quad_corner(slices as int, stack, slice, j),
{
    assert(6 * stacks * slices == 6 * (stacks * slices)) by (nonlinear_arith);
    assert(slices + 1 <= (stacks + 1) * (slices + 1)) by (nonlinear_arith)
        requires
            0 <= stacks,
            0 <= slices,
    ;
    let mut indices: Vec<u32> = Vec::new();
    let row = slices + 1;
    let mut stack: u32 = 0;
    while stack < stacks
        invariant
            sphere_vertex_count(stacks as int, slices as int) <= u32::MAX,
            row == slices + 1,
            stack <= stacks,
            indices@.len() == 6 * (stack * slices),
            forall|s: int, t: int, j: int|
                0 <= s < stack && 0 <= t < slices && 0 <= j < 6 ==> indices@[#[trigger] corner_position(
                    slices as int,
                    s,
                    t,
                    j,
                )] == quad_corner(slices as int, s, t, j),
        decreases stacks - stack,
    {
        let mut slice: u32 = 0;
        while slice < slices
            invariant
                sphere_vertex_count(stacks as int, slices as int) <= u32::MAX,
                row == slices + 1,
                stack < stacks,
                slice <= slices,
                indices@.len() == 6 * (stack * slices + slice),
                forall|s: int, t: int, j: int|
                    0 <= s < stacks && 0 <= t < slices && 0 <= j < 6 && (s < stack || (s == stack && t < slice))
                        ==> indices@[#[trigger] corner_position(slices as int, s, t, j)] == quad_corner(
                        slices as int,
                        s,
                        t,
                        j,
                    ),
            decreases slices - slice,
        {
            proof {
                lemma_quad_bounds(stacks as int, slices as int, stack as int, slice as int);
            }
            let top_left = stack * row + slice;
            let bottom_left = (stack + 1) * row + slice;
            let ghost before = indices@;
            indices.push(top_left);
            indices.push(top_left + 1);
            indices.push(bottom_left);
            indices.push(top_left + 1);
            indices.push(bottom_left + 1);
            indices.push(bottom_left);
            proof {
                assert forall|s: int, t: int, j: int|
                    0 <= s < stacks && 0 <= t < slices && 0 <= j < 6 && (s < stack || (s == stack && t < slice
                        + 1)) implies indices@[#[trigger] corner_position(slices as int, s, t, j)]
                    == quad_corner(slices as int, s, t, j) by {
                    if s == stack && t == slice {
                        assert(corner_position(slices as int, s, t, j) == before.len() + j);
                    } else {
                        if s < stack {
                            assert(s * slices + t < stack * slices) by (nonlinear_arith)
                                requires
                                    0 <= s < stack,
                                    0 <= t < slices,
                            {
                                assert(s * slices + slices <= stack * slices);
                            }
                        }
                        assert(corner_position(slices as int, s, t, j) < before.len());
                    }
                }
            }
            slice = slice + 1;
        }
        proof {
            assert(stack * slices + slices == (stack + 1) * slices) by (nonlinear_arith);
        }
        stack = stack + 1;
    }
    indices
}

/// Every index of the triangle list names a vertex of the sphere.
pub proof fn lemma_sphere_indices_name_vertices(stacks: int, slices: int, stack: int, slice: int, j: int)
    requires
        0 <= stack < stacks,
        0 <= slice < slices,
        0 <= j < 6,
    ensures
        0 <= quad_corner(slices, stack, slice, j) < sphere_vertex_count(stacks, slices),
{
    lemma_quad_bounds(stacks, slices, stack, slice);
}

/// The corners of distinct quads, and distinct corners of one quad, sit at
/// distinct positions of the index list, all below `6 * stacks * slices`:
/// the list holds every corner of every quad exactly once.
pub proof fn lemma_corner_positions_distinct(
    stacks: int,
    slices: int,
    s1: int,
    t1: int,
    j1: int,
    s2: int,
    t2: int,
    j2: int,
)
    requires
        0 <= s1 < stacks,
        0 <= t1 < slices,
        0 <= j1 < 6,
        0 <= s2 < stacks,
        0 <= t2 < slices,
        0 <= j2 < 6,
        (s1, t1, j1) != (s2, t2, j2),
    ensures
        0 <= corner_position(slices, s1, t1, j1) < 6 * stacks * slices,
        corner_position(slices, s1, t1, j1) != corner_position(slices, s2, t2, j2),
{
    lemma_quad_bounds(stacks, slices, s1, t1);
    lemma_quad_bounds(stacks, slices, s2, t2);
    assert(0 <= s1 * slices) by (nonlinear_arith)
        requires
            0 <= s1,
            0 <= slices,
    ;
    assert(6 * stacks * slices == 6 * (stacks * slices)) by (nonlinear_arith);
    if s1 < s2 {
        assert(s1 * slices + t1 < s2 * slices) by (nonlinear_arith)
            requires
                0 <= s1 < s2,
                0 <= t1 < slices,
        {
            assert(s1 * slices + slices <= s2 * slices);
        }
    } else if s2 < s1 {
        assert(s2 * slices + t2 < s1 * slices) by (nonlinear_arith)
            requires
                0 <= s2 < s1,
                0 <= t2 < slices,
        {
            assert(s2 * slices + slices <= s1 * slices);
        }
    }
}

/// Vertex `k` of ring `ring` (rings run from pole to pole, `slices + 1`
/// vertices each).
pub open spec fn ring_vertex(slices: int, ring: int, k: int) -> int {
    ring * (slices + 1) + k
}

/// Quad `(stack, slice)` spans vertices `slice` and `slice + 1` of rings
/// `stack` and `stack + 1`, cut along the diagonal from the upper right to
/// the lower left into the triangles (upper left, upper right, lower left)
/// and (upper right, lower right, lower left).
pub proof fn lemma_quad_triangles(slices: int, stack: int, slice: int)
    ensures
        quad_corner(slices, stack, slice, 0) == ring_vertex(slices, stack, slice),
        quad_corner(slices, stack, slice, 1) == ring_vertex(slices, stack, slice + 1),
        quad_corner(slices, stack, slice, 2) == ring_vertex(slices, stack + 1, slice),
        quad_corner(slices, stack, slice, 3) == ring_vertex(slices, stack, slice + 1),
        quad_corner(slices, stack, slice, 4) == ring_vertex(slices, stack + 1, slice + 1),
        quad_corner(slices, stack, slice, 5) == ring_vertex(slices, stack + 1, slice),
{
}

} // verus!
