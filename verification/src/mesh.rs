//! Symbolic local meshes: vertex construction rules and triangle lists.

use vstd::prelude::*;

verus! {

/// One triangle: three indices into a vertex list. Winding order is
/// significant (it orients the face), so the fields are ordered.
#[derive(Clone, Copy, PartialEq, Eq, Structural, Debug)]
pub struct Tri {
    pub a: usize,
    pub b: usize,
    pub c: usize,
}

/// How to compute one vertex position from an instance's size `(sx, sy, sz)`.
/// Writing `hx = sx / 2` (and likewise `hy`, `hz`) for the half-extents:
///
/// - `Corner`: `(±hx, ±hy, ±hz)`, the sign of each axis given by the flag
///   (`true` means the negative end).
/// - `Ring`: a point of a cylinder ring, `(±hx, hy·cos θ, hz·sin θ)` with
///   `θ = 2π·step/steps`.
/// - `Cap`: a cylinder cap center, `(±hx, 0, 0)`.
/// - `Seed`: vertex `index` of the regular icosahedron, normalized to the
///   unit sphere, then scaled per axis by `(hx, hy, hz)`.
/// - `Midpoint`: the midpoint of two earlier vertices of the same sphere
///   mesh taken on the unit sphere, re-normalized to unit length, then
///   scaled per axis by `(hx, hy, hz)`.
#[derive(Clone, Copy, PartialEq, Eq, Structural, Debug)]
pub enum VertexRule {
    Corner { neg_x: bool, neg_y: bool, neg_z: bool },
    Ring { neg_x: bool, step: usize, steps: usize },
    Cap { neg_x: bool },
    Seed { index: usize },
    Midpoint { a: usize, b: usize },
}

/// The signed coordinate of a `Corner` axis, in halved size units:
/// `-h` for the negative end of an axis of half-extent `h`, else `h`.
pub open spec fn corner_coord(neg: bool, h: int) -> int {
    if neg {
        -h
    } else {
        h
    }
}

/// All three indices of `t` are below `n`.
pub open spec fn tri_in_bounds(t: Tri, n: int) -> bool {
    t.a < n && t.b < n && t.c < n
}

/// All triangles of `ts` index only vertices below `n`.
pub open spec fn tris_in_bounds(ts: Seq<Tri>, n: int) -> bool {
    forall|i: int| 0 <= i < ts.len() ==> tri_in_bounds(#[trigger] ts[i], n)
}

/// `t` has the undirected edge `{x, y}` as one of its three sides.
pub open spec fn tri_has_edge(t: Tri, x: int, y: int) -> bool {
    ||| (t.a == x && t.b == y)
    ||| (t.b == x && t.a == y)
    ||| (t.b == x && t.c == y)
    ||| (t.c == x && t.b == y)
    ||| (t.c == x && t.a == y)
    ||| (t.a == x && t.c == y)
}

/// How many triangles of `ts` have the undirected edge `{x, y}`.
pub open spec fn edge_count(ts: Seq<Tri>, x: int, y: int) -> nat
    decreases ts.len(),
{
    if ts.len() == 0 {
        0
    } else {
        edge_count(ts.drop_last(), x, y) + if tri_has_edge(ts.last(), x, y) {
            1nat
        } else {
            0nat
        }
    }
}

/// Every undirected edge on vertices below `n` is shared by exactly two
/// triangles of `ts`, or by none: the mesh is closed (watertight).
pub open spec fn watertight(ts: Seq<Tri>, n: int) -> bool {
    forall|x: int, y: int|
        0 <= x < y < n ==> edge_count(ts, x, y) == 0 || #[trigger] edge_count(ts, x, y) == 2
}

/// `t` traverses the directed edge `x -> y` on one of its three sides.
pub open spec fn tri_has_dir_edge(t: Tri, x: int, y: int) -> bool {
    ||| (t.a == x && t.b == y)
    ||| (t.b == x && t.c == y)
    ||| (t.c == x && t.a == y)
}

/// How many triangles of `ts` traverse the directed edge `x -> y`.
pub open spec fn dir_edge_count(ts: Seq<Tri>, x: int, y: int) -> nat
    decreases ts.len(),
{
    if ts.len() == 0 {
        0
    } else {
        dir_edge_count(ts.drop_last(), x, y) + if tri_has_dir_edge(ts.last(), x, y) {
            1nat
        } else {
            0nat
        }
    }
}

/// No directed edge on vertices below `n` is traversed by two triangles of
/// `ts`. On a watertight mesh this means the two triangles sharing an edge
/// walk it in opposite directions: the surface is consistently oriented.
pub open spec fn consistently_oriented(ts: Seq<Tri>, n: int) -> bool {
    forall|x: int, y: int|
        0 <= x < n && 0 <= y < n ==> #[trigger] dir_edge_count(ts, x, y) <= 1
}

} // verus!
