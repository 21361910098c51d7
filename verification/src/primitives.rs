//! Mesh builders for the box, wedge, corner-wedge and cylinder primitives.
//!
//! Each builder returns the symbolic vertex list and the triangle list of the
//! shape in its own local frame; the contracts pin both lists exactly.

use vstd::prelude::*;

use crate::mesh::{consistently_oriented, corner_coord, dir_edge_count, edge_count, tri_in_bounds,
    tris_in_bounds, watertight, Tri, VertexRule};

verus! {

/// The eight corners of the axis-aligned box, in emission order.
pub open spec fn cube_rules() -> Seq<VertexRule> {
    seq![
        VertexRule::Corner { neg_x: true, neg_y: true, neg_z: true },
        VertexRule::Corner { neg_x: false, neg_y: true, neg_z: true },
        VertexRule::Corner { neg_x: false, neg_y: false, neg_z: true },
        VertexRule::Corner { neg_x: true, neg_y: false, neg_z: true },
        VertexRule::Corner { neg_x: true, neg_y: true, neg_z: false },
        VertexRule::Corner { neg_x: false, neg_y: true, neg_z: false },
        VertexRule::Corner { neg_x: false, neg_y: false, neg_z: false },
        VertexRule::Corner { neg_x: true, neg_y: false, neg_z: false },
    ]
}

/// The twelve triangles of the box: two per face, sharing the face
/// diagonal, all wound consistently outward.
pub open spec fn cube_tris() -> Seq<Tri> {
    seq![
        Tri { a: 0, b: 2, c: 1 },
        Tri { a: 0, b: 3, c: 2 },
        Tri { a: 4, b: 5, c: 6 },
        Tri { a: 4, b: 6, c: 7 },
        Tri { a: 0, b: 1, c: 5 },
        Tri { a: 0, b: 5, c: 4 },
        Tri { a: 1, b: 2, c: 6 },
        Tri { a: 1, b: 6, c: 5 },
        Tri { a: 2, b: 3, c: 7 },
        Tri { a: 2, b: 7, c: 6 },
        Tri { a: 3, b: 0, c: 4 },
        Tri { a: 3, b: 4, c: 7 },
    ]
}

/// The six vertices of the wedge: a box bottom plus a top ridge on the
/// positive-z side.
pub open spec fn wedge_rules() -> Seq<VertexRule> {
    seq![
        VertexRule::Corner { neg_x: true, neg_y: true, neg_z: true },
        VertexRule::Corner { neg_x: false, neg_y: true, neg_z: true },
        VertexRule::Corner { neg_x: false, neg_y: true, neg_z: false },
        VertexRule::Corner { neg_x: true, neg_y: true, neg_z: false },
        VertexRule::Corner { neg_x: true, neg_y: false, neg_z: false },
        VertexRule::Corner { neg_x: false, neg_y: false, neg_z: false },
    ]
}

/// The eight triangles of the wedge: bottom, slope, back, and two end caps.
pub open spec fn wedge_tris() -> Seq<Tri> {
    seq![
        Tri { a: 0, b: 1, c: 2 },
        Tri { a: 0, b: 2, c: 3 },
        Tri { a: 0, b: 1, c: 4 },
        Tri { a: 1, b: 5, c: 4 },
        Tri { a: 3, b: 2, c: 5 },
        Tri { a: 3, b: 5, c: 4 },
        Tri { a: 0, b: 3, c: 4 },
        Tri { a: 1, b: 2, c: 5 },
    ]
}

/// Ring and cap vertices of the cylinder: for each of the `steps` angular
/// positions one vertex on each end of the axis, then the two cap centers.
pub open spec fn cylinder_rules(steps: int) -> Seq<VertexRule> {
    Seq::new(
        (2 * steps + 2) as nat,
        |i: int|
            if i < 2 * steps {
                VertexRule::Ring { neg_x: i % 2 == 0, step: (i / 2) as usize, steps: steps as usize }
            } else {
                VertexRule::Cap { neg_x: i == 2 * steps }
            },
    )
}

/// Cylinder triangles: per angular step two side triangles and one triangle
/// on each cap, indices wrapping around at the last step.
pub open spec fn cylinder_tris(steps: int) -> Seq<Tri> {
    Seq::new(
        (4 * steps) as nat,
        |j: int|
            {
                let i = j / 4;
                let next = if i + 1 == steps {
                    0int
                } else {
                    i + 1
                };
                if j % 4 == 0 {
                    Tri { a: (2 * i) as usize, b: (2 * next) as usize, c: (2 * next + 1) as usize }
                } else if j % 4 == 1 {
                    Tri { a: (2 * i) as usize, b: (2 * next + 1) as usize, c: (2 * i + 1) as usize }
                } else if j % 4 == 2 {
                    Tri { a: (2 * i) as usize, b: (2 * next) as usize, c: (2 * steps) as usize }
                } else {
                    Tri {
                        a: (2 * i + 1) as usize,
                        b: (2 * next + 1) as usize,
                        c: (2 * steps + 1) as usize,
                    }
                }
            },
    )
}

/// Builds the box mesh: 8 corner vertices and 12 triangles.
pub fn cube_mesh() -> (r: (Vec<VertexRule>, Vec<Tri>))
    ensures
        r.0@ == cube_rules(),
        r.1@ == cube_tris(),
{
    let rules: Vec<VertexRule> = vec![
        VertexRule::Corner { neg_x: true, neg_y: true, neg_z: true },
        VertexRule::Corner { neg_x: false, neg_y: true, neg_z: true },
        VertexRule::Corner { neg_x: false, neg_y: false, neg_z: true },
        VertexRule::Corner { neg_x: true, neg_y: false, neg_z: true },
        VertexRule::Corner { neg_x: true, neg_y: true, neg_z: false },
        VertexRule::Corner { neg_x: false, neg_y: true, neg_z: false },
        VertexRule::Corner { neg_x: false, neg_y: false, neg_z: false },
        VertexRule::Corner { neg_x: true, neg_y: false, neg_z: false },
    ];
    let tris: Vec<Tri> = vec![
        Tri { a: 0, b: 2, c: 1 },
        Tri { a: 0, b: 3, c: 2 },
        Tri { a: 4, b: 5, c: 6 },
        Tri { a: 4, b: 6, c: 7 },
        Tri { a: 0, b: 1, c: 5 },
        Tri { a: 0, b: 5, c: 4 },
        Tri { a: 1, b: 2, c: 6 },
        Tri { a: 1, b: 6, c: 5 },
        Tri { a: 2, b: 3, c: 7 },
        Tri { a: 2, b: 7, c: 6 },
        Tri { a: 3, b: 0, c: 4 },
        Tri { a: 3, b: 4, c: 7 },
    ];
    proof {
        assert(rules@ =~= cube_rules());
        assert(tris@ =~= cube_tris());
    }
    (rules, tris)
}

/// Builds the wedge mesh: 6 vertices and 8 triangles.
pub fn wedge_mesh() -> (r: (Vec<VertexRule>, Vec<Tri>))
    ensures
        r.0@ == wedge_rules(),
        r.1@ == wedge_tris(),
{
    let rules: Vec<VertexRule> = vec![
        VertexRule::Corner { neg_x: true, neg_y: true, neg_z: true },
        VertexRule::Corner { neg_x: false, neg_y: true, neg_z: true },
        VertexRule::Corner { neg_x: false, neg_y: true, neg_z: false },
        VertexRule::Corner { neg_x: true, neg_y: true, neg_z: false },
        VertexRule::Corner { neg_x: true, neg_y: false, neg_z: false },
        VertexRule::Corner { neg_x: false, neg_y: false, neg_z: false },
    ];
    let tris: Vec<Tri> = vec![
        Tri { a: 0, b: 1, c: 2 },
        Tri { a: 0, b: 2, c: 3 },
        Tri { a: 0, b: 1, c: 4 },
        Tri { a: 1, b: 5, c: 4 },
        Tri { a: 3, b: 2, c: 5 },
        Tri { a: 3, b: 5, c: 4 },
        Tri { a: 0, b: 3, c: 4 },
        Tri { a: 1, b: 2, c: 5 },
    ];
    proof {
        assert(rules@ =~= wedge_rules());
        assert(tris@ =~= wedge_tris());
    }
    (rules, tris)
}

/// Builds the corner-wedge mesh. No dedicated corner geometry exists yet,
/// so this reuses the wedge geometry verbatim, a documented approximation.
pub fn corner_wedge_mesh() -> (r: (Vec<VertexRule>, Vec<Tri>))
    ensures
        r.0@ == wedge_rules(),
        r.1@ == wedge_tris(),
{
    wedge_mesh()
}

/// Builds the capped cylinder mesh with `steps` radial segments around the
/// x axis: `2 * steps` ring vertices, 2 cap centers, and `4 * steps`
/// triangles.
pub fn cylinder_mesh(steps: usize) -> (r: (Vec<VertexRule>, Vec<Tri>))
    requires
        4 * steps + 2 <= usize::MAX,
    ensures
        r.0@ == cylinder_rules(steps as int),
        r.1@ == cylinder_tris(steps as int),
{
    let mut rules: Vec<VertexRule> = Vec::new();
    let mut i: usize = 0;
    while i < steps
        invariant
            i <= steps,
            4 * steps + 2 <= usize::MAX,
            rules@.len() == 2 * i,
            forall|j: int| 0 <= j < 2 * i ==> rules@[j] == cylinder_rules(steps as int)[j],
        decreases steps - i,
    {
        rules.push(VertexRule::Ring { neg_x: true, step: i, steps });
        rules.push(VertexRule::Ring { neg_x: false, step: i, steps });
        proof {
            assert(rules@[2 * i as int] == cylinder_rules(steps as int)[2 * i as int]);
            assert(rules@[2 * i as int + 1] == cylinder_rules(steps as int)[2 * i as int + 1]);
        }
        i = i + 1;
    }
    rules.push(VertexRule::Cap { neg_x: true });
    rules.push(VertexRule::Cap { neg_x: false });

    let mut tris: Vec<Tri> = Vec::new();
    let mut i: usize = 0;
    while i < steps
        invariant
            i <= steps,
            4 * steps + 2 <= usize::MAX,
            tris@.len() == 4 * i,
            forall|j: int| 0 <= j < 4 * i ==> tris@[j] == cylinder_tris(steps as int)[j],
        decreases steps - i,
    {
        let next: usize = if i + 1 == steps {
            0
        } else {
            i + 1
        };
        tris.push(Tri { a: 2 * i, b: 2 * next, c: 2 * next + 1 });
        tris.push(Tri { a: 2 * i, b: 2 * next + 1, c: 2 * i + 1 });
        tris.push(Tri { a: 2 * i, b: 2 * next, c: 2 * steps });
        tris.push(Tri { a: 2 * i + 1, b: 2 * next + 1, c: 2 * steps + 1 });
        proof {
            let s = steps as int;
            let ii = i as int;
            assert(4 * ii / 4 == ii && (4 * ii + 1) / 4 == ii && (4 * ii + 2) / 4 == ii && (4 * ii
                + 3) / 4 == ii) by (nonlinear_arith);
            assert(4 * ii % 4 == 0 && (4 * ii + 1) % 4 == 1 && (4 * ii + 2) % 4 == 2 && (4 * ii
                + 3) % 4 == 3) by (nonlinear_arith);
            assert(tris@[4 * ii] == cylinder_tris(s)[4 * ii]);
            assert(tris@[4 * ii + 1] == cylinder_tris(s)[4 * ii + 1]);
            assert(tris@[4 * ii + 2] == cylinder_tris(s)[4 * ii + 2]);
            assert(tris@[4 * ii + 3] == cylinder_tris(s)[4 * ii + 3]);
        }
        i = i + 1;
    }
    proof {
        assert(rules@ =~= cylinder_rules(steps as int));
        assert(tris@ =~= cylinder_tris(steps as int));
    }
    (rules, tris)
}

/// The vertex rule `r` is a corner whose coordinate on each axis lies within
/// the half-extents `(hx, hy, hz)` of the box.
pub open spec fn corner_within(r: VertexRule, hx: int, hy: int, hz: int) -> bool {
    &&& r matches VertexRule::Corner { neg_x, neg_y, neg_z }
    &&& -hx <= corner_coord(r->Corner_neg_x, hx) <= hx
    &&& -hy <= corner_coord(r->Corner_neg_y, hy) <= hy
    &&& -hz <= corner_coord(r->Corner_neg_z, hz) <= hz
}

/// Law: for any box of half-extents `(hx, hy, hz)`, every vertex of the box
/// mesh is a corner whose coordinate on each axis lies within
/// `[-hx, hx] x [-hy, hy] x [-hz, hz]`.
pub proof fn lemma_box_vertices_bounded(hx: int, hy: int, hz: int)
    requires
        0 <= hx,
        0 <= hy,
        0 <= hz,
    ensures
        forall|i: int|
            0 <= i < cube_rules().len() ==> corner_within(#[trigger] cube_rules()[i], hx, hy, hz),
{
    assert forall|i: int| 0 <= i < cube_rules().len() implies corner_within(
        #[trigger] cube_rules()[i],
        hx,
        hy,
        hz,
    ) by {
        assert(cube_rules()[i] is Corner);
    }
}

/// All box triangles index only the 8 box vertices.
pub proof fn lemma_box_tris_bounded()
    ensures
        tris_in_bounds(cube_tris(), cube_rules().len() as int),
{
    assert forall|i: int| 0 <= i < cube_tris().len() implies tri_in_bounds(
        #[trigger] cube_tris()[i],
        cube_rules().len() as int,
    ) by {
        assert(cube_tris()[i].a < 8 && cube_tris()[i].b < 8 && cube_tris()[i].c < 8);
    }
}

/// All wedge triangles index only the 6 wedge vertices.
pub proof fn lemma_wedge_tris_bounded()
    ensures
        tris_in_bounds(wedge_tris(), wedge_rules().len() as int),
{
    assert forall|i: int| 0 <= i < wedge_tris().len() implies tri_in_bounds(
        #[trigger] wedge_tris()[i],
        wedge_rules().len() as int,
    ) by {
        assert(wedge_tris()[i].a < 6 && wedge_tris()[i].b < 6 && wedge_tris()[i].c < 6);
    }
}

/// All cylinder triangles index only the `2 * steps + 2` cylinder vertices.
pub proof fn lemma_cylinder_tris_bounded(steps: int)
    requires
        0 <= steps,
    ensures
        tris_in_bounds(cylinder_tris(steps), 2 * steps + 2),
{
    assert forall|i: int| 0 <= i < cylinder_tris(steps).len() implies tri_in_bounds(
        #[trigger] cylinder_tris(steps)[i],
        2 * steps + 2,
    ) by {
        let j = i / 4;
        assert(0 <= j < steps) by (nonlinear_arith)
            requires
                0 <= i < 4 * steps,
                j == i / 4,
        ;
    }
}

/// Law: the box mesh is closed (watertight): every undirected edge on its
/// eight vertices lies on exactly two of its twelve triangles, or on none.
#[verifier::rlimit(100)]
pub proof fn lemma_box_watertight()
    ensures
        watertight(cube_tris(), 8),
{
    assert forall|x: int, y: int| 0 <= x < y < 8 implies edge_count(cube_tris(), x, y) == 0
        || #[trigger] edge_count(cube_tris(), x, y) == 2 by {
        reveal_with_fuel(edge_count, 13);
    }
}

/// Law: the box mesh is consistently oriented: no directed edge is walked by
/// two of its triangles, so the two triangles on each shared edge traverse
/// it in opposite directions and all twelve faces wind the same way —
/// outward, since each face's winding is counterclockwise seen from outside
/// its own axis plane.
#[verifier::rlimit(100)]
pub proof fn lemma_box_oriented()
    ensures
        consistently_oriented(cube_tris(), 8),
{
    assert forall|x: int, y: int| 0 <= x < 8 && 0 <= y < 8 implies #[trigger] dir_edge_count(
        cube_tris(),
        x,
        y,
    ) <= 1 by {
        reveal_with_fuel(dir_edge_count, 13);
    }
}

/// Counts the triangles of `ts` that contain the undirected edge `{x, y}`.
pub fn count_edge(ts: &Vec<Tri>, x: usize, y: usize) -> (c: usize)
    ensures
        c == edge_count(ts@, x as int, y as int),
{
    let mut c: usize = 0;
    let mut t: usize = 0;
    while t < ts.len()
        invariant
            t <= ts@.len(),
            c == edge_count(ts@.subrange(0, t as int), x as int, y as int),
            c <= t,
        decreases ts@.len() - t,
    {
        let tr = ts[t];
        let hit = (tr.a == x && tr.b == y) || (tr.b == x && tr.a == y) || (tr.b == x && tr.c == y)
            || (tr.c == x && tr.b == y) || (tr.c == x && tr.a == y) || (tr.a == x && tr.c == y);
        proof {
            assert(ts@.subrange(0, t as int + 1).drop_last() =~= ts@.subrange(0, t as int));
            assert(ts@.subrange(0, t as int + 1).last() == ts@[t as int]);
        }
        if hit {
            c = c + 1;
        }
        t = t + 1;
    }
    proof {
        assert(ts@.subrange(0, ts@.len() as int) =~= ts@);
    }
    c
}

/// Decides whether every undirected edge on vertices below `n` is shared by
/// exactly two triangles of `ts` or by none.
pub fn check_watertight(ts: &Vec<Tri>, n: usize) -> (r: bool)
    ensures
        r == watertight(ts@, n as int),
{
    let mut x: usize = 0;
    while x < n
        invariant
            x <= n,
            forall|a: int, b: int|
                0 <= a < b < n && a < x ==> edge_count(ts@, a, b) == 0 || #[trigger] edge_count(
                    ts@,
                    a,
                    b,
                ) == 2,
        decreases n - x,
    {
        let mut y: usize = x + 1;
        while y < n
            invariant
                x < y <= n || (x + 1 == y && y > n),
                x < n,
                forall|a: int, b: int|
                    0 <= a < b < n && a < x ==> edge_count(ts@, a, b) == 0 || #[trigger] edge_count(
                        ts@,
                        a,
                        b,
                    ) == 2,
                forall|b: int|
                    x < b < y ==> edge_count(ts@, x as int, b) == 0 || #[trigger] edge_count(
                        ts@,
                        x as int,
                        b,
                    ) == 2,
            decreases n - y,
        {
            let c = count_edge(ts, x, y);
            if c != 0 && c != 2 {
                return false;
            }
            y = y + 1;
        }
        x = x + 1;
    }
    true
}

} // verus!
