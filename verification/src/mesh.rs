//! The triangles of the plane that the ocean is drawn on: a square grid of
//! cells, each split into two triangles along one diagonal.

use vstd::prelude::*;

verus! {

/// Number of vertices of a plane of `side` cells a side.
pub open spec fn vertex_total(side: nat) -> nat {
    (side + 1) * (side + 1)
}

/// Vertex at the corner of cell `(x, z)` with the lowest coordinates: the
/// vertices are numbered along `z` first.
pub open spec fn corner(x: nat, z: nat, side: nat) -> nat {
    x * (side + 1) + z
}

/// The `k`-th of the six indices of a cell whose lowest corner is vertex `v`:
/// the triangle from `v` over its neighbour along `z` to the opposite corner,
/// then the triangle from `v` over the opposite corner to its neighbour
/// along `x`.
pub open spec fn cell_index(v: nat, k: nat, side: nat) -> nat {
    if k == 0 || k == 3 {
        v
    } else if k == 1 {
        v + 1
    } else if k == 2 || k == 4 {
        v + side + 2
    } else {
        v + side + 1
    }
}

/// The index buffer of the plane: six indices for each cell, the cells in
/// the order of their lowest corners.
pub open spec fn plane_index_buffer(side: nat) -> Seq<u32> {
    Seq::new(
        6 * (side * side),
        |i: int|
            cell_index(
                corner(((i / 6) / (side as int)) as nat, ((i / 6) % (side as int)) as nat, side),
                (i % 6) as nat,
                side,
            ) as u32,
    )
}

/// Every index of a cell names a vertex of the plane.
pub proof fn lemma_cell_indices_name_vertices(x: nat, z: nat, k: nat, side: nat)
    requires
        x < side,
        z < side,
        k < 6,
    ensures
        cell_index(corner(x, z, side), k, side) < vertex_total(side),
{
    assert(x * (side + 1) + (side + 1) <= side * (side + 1)) by (nonlinear_arith)
        requires
            x < side,
    ;
    assert((side + 1) * (side + 1) == side * (side + 1) + side + 1) by (nonlinear_arith);
}

/// Number of vertices of a plane of `side` cells a side, when every vertex
/// can be named by a 32-bit index.
pub fn vertex_count(side: u32) -> (count: Option<u32>)
    ensures
        count == if vertex_total(side as nat) <= u32::MAX {
            Some(vertex_total(side as nat) as u32)
        } else {
            None
        },
{
    if side >= 0xffff {
        assert(vertex_total(side as nat) > u32::MAX) by (nonlinear_arith)
            requires
                side >= 0xffff,
                vertex_total(side as nat) == (side + 1) * (side + 1),
        ;
        None
    } else {
        let edge: u32 = side + 1;
        assert(edge * edge <= 0xffff * 0xffff) by (nonlinear_arith)
            requires
                edge <= 0xffff,
        ;
        Some(edge * edge)
    }
}

/// Builds the index buffer of a plane of `side` cells a side, unless the
/// plane has more vertices than 32-bit indices can name or more indices than
/// a buffer can hold.
pub fn plane_indices(side: u32) -> (made: Option<Vec<u32>>)
    ensures
        match made {
            Some(indices) => indices@ == plane_index_buffer(side as nat) && forall|i: int|
                0 <= i < indices@.len() ==> indices@[i] < vertex_total(side as nat),
            None => vertex_total(side as nat) > u32::MAX || 6 * (side * side) > usize::MAX,
        },
        made is Some <==> vertex_total(side as nat) <= u32::MAX && 6 * (side * side)
            <= usize::MAX,
{
    if vertex_count(side).is_none() {
        return None;
    }
    assert(side < 0xffff) by (nonlinear_arith)
        requires
            (side + 1) * (side + 1) <= u32::MAX,
    ;
    assert(side * side <= 0xffff * 0xffff) by (nonlinear_arith)
        requires
            side < 0xffff,
    ;
    let cells: u64 = side as u64 * side as u64;
    if 6 * cells > usize::MAX as u64 {
        return None;
    }
    Some(fill_plane_indices(side))
}

/// Builds the index buffer of a plane whose vertices 32-bit indices can name.
fn fill_plane_indices(side: u32) -> (indices: Vec<u32>)
    requires
        vertex_total(side as nat) <= u32::MAX,
        6 * (side * side) <= usize::MAX,
    ensures
        indices@ == plane_index_buffer(side as nat),
        forall|i: int| 0 <= i < indices@.len() ==> indices@[i] < vertex_total(side as nat),
{
    let ghost s = side as nat;
    let mut indices: Vec<u32> = Vec::new();
    let mut vi: u32 = 0;
    let mut x: u32 = 0;
    while x < side
        invariant
            x <= side,
            s == side,
            vertex_total(s) <= u32::MAX,
            vi == corner(x as nat, 0, s),
            indices@.len() == 6 * (x * side),
            indices@.len() <= 6 * (s * s),
            forall|i: int| 0 <= i < indices@.len() ==> indices@[i] == plane_index_buffer(s)[i],
            forall|i: int| 0 <= i < indices@.len() ==> indices@[i] < vertex_total(s),
        decreases side - x,
    {
        let mut z: u32 = 0;
        while z < side
            invariant
                z <= side,
                x < side,
                s == side,
                vertex_total(s) <= u32::MAX,
                vi == corner(x as nat, z as nat, s),
                indices@.len() == 6 * (x * side + z),
                indices@.len() <= 6 * (s * s),
                forall|i: int| 0 <= i < indices@.len() ==> indices@[i] == plane_index_buffer(s)[i],
                forall|i: int| 0 <= i < indices@.len() ==> indices@[i] < vertex_total(s),
            decreases side - z,
        {
            let ghost cell = (x * side + z) as int;
            proof {
                lemma_cell_indices_name_vertices(x as nat, z as nat, 2, s);
                assert(x * side + side <= side * side) by (nonlinear_arith)
                    requires
                        x < side,
                ;
            }
            indices.push(vi);
            indices.push(vi + 1);
            indices.push(vi + side + 2);
            indices.push(vi);
            indices.push(vi + side + 2);
            indices.push(vi + side + 1);
            proof {
                assert forall|i: int| 6 * cell <= i < 6 * cell + 6 implies indices@[i]
                    == plane_index_buffer(s)[i] && indices@[i] < vertex_total(s) by {
                    vstd::arithmetic::div_mod::lemma_fundamental_div_mod_converse(
                        cell,
                        side as int,
                        x as int,
                        z as int,
                    );
                }
            }
            vi = vi + 1;
            z = z + 1;
        }
        proof {
            assert((x + 1) * side == x * side + side) by (nonlinear_arith);
            assert((x + 1) * (side + 1) == x * (side + 1) + side + 1) by (nonlinear_arith);
            assert((x + 1) * (side + 1) <= (side + 1) * (side + 1)) by (nonlinear_arith)
                requires
                    x < side,
            ;
        }
        vi = vi + 1;
        x = x + 1;
    }
    indices
}

} // verus!
