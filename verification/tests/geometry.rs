use scenemesh::mesh::{Tri, VertexRule};
use scenemesh::primitives::{check_watertight, corner_wedge_mesh, count_edge, cube_mesh,
    cylinder_mesh, wedge_mesh};
use scenemesh::sphere::{get_midpoint, sphere_mesh, CacheEntry};

/// Evaluates the vertex rules of a sphere mesh to unit-sphere positions.
fn eval_unit_sphere(rules: &[VertexRule]) -> Vec<[f64; 3]> {
    let t = (1.0 + 5.0f64.sqrt()) / 2.0;
    let seeds: [[f64; 3]; 12] = [
        [-1.0, t, 0.0],
        [1.0, t, 0.0],
        [-1.0, -t, 0.0],
        [1.0, -t, 0.0],
        [0.0, -1.0, t],
        [0.0, 1.0, t],
        [0.0, -1.0, -t],
        [0.0, 1.0, -t],
        [t, 0.0, -1.0],
        [t, 0.0, 1.0],
        [-t, 0.0, -1.0],
        [-t, 0.0, 1.0],
    ];
    let normalize = |v: [f64; 3]| {
        let len = (v[0] * v[0] + v[1] * v[1] + v[2] * v[2]).sqrt();
        [v[0] / len, v[1] / len, v[2] / len]
    };
    let mut out: Vec<[f64; 3]> = Vec::new();
    for r in rules {
        match *r {
            VertexRule::Seed { index } => out.push(normalize(seeds[index])),
            VertexRule::Midpoint { a, b } => {
                let va = out[a];
                let vb = out[b];
                out.push(normalize([
                    (va[0] + vb[0]) / 2.0,
                    (va[1] + vb[1]) / 2.0,
                    (va[2] + vb[2]) / 2.0,
                ]));
            }
            _ => panic!("sphere meshes hold only seed and midpoint vertices"),
        }
    }
    out
}

#[test]
fn box_mesh_counts() {
    let (rules, tris) = cube_mesh();
    assert_eq!(rules.len(), 8);
    assert_eq!(tris.len(), 12);
    assert_eq!(
        rules[0],
        VertexRule::Corner { neg_x: true, neg_y: true, neg_z: true }
    );
    assert_eq!(
        rules[6],
        VertexRule::Corner { neg_x: false, neg_y: false, neg_z: false }
    );
    assert_eq!(tris[0], Tri { a: 0, b: 2, c: 1 });
    assert_eq!(tris[11], Tri { a: 3, b: 4, c: 7 });
}

#[test]
fn box_mesh_consistently_oriented() {
    // each undirected edge of the box is walked once in each direction:
    // no directed edge occurs on two triangles
    let (_, tris) = cube_mesh();
    let mut directed: Vec<(usize, usize)> = Vec::new();
    for t in &tris {
        directed.push((t.a, t.b));
        directed.push((t.b, t.c));
        directed.push((t.c, t.a));
    }
    for (i, e) in directed.iter().enumerate() {
        for other in &directed[i + 1..] {
            assert_ne!(e, other);
        }
        // the opposite traversal exists on the adjacent triangle
        assert!(directed.contains(&(e.1, e.0)));
    }
}

#[test]
fn box_vertices_within_half_extents() {
    // size (2, 3, 4): half-extents (1, 1.5, 2)
    let (rules, _) = cube_mesh();
    let (hx, hy, hz) = (1.0f64, 1.5f64, 2.0f64);
    for r in &rules {
        match *r {
            VertexRule::Corner { neg_x, neg_y, neg_z } => {
                let x = if neg_x { -hx } else { hx };
                let y = if neg_y { -hy } else { hy };
                let z = if neg_z { -hz } else { hz };
                assert!(-hx <= x && x <= hx);
                assert!(-hy <= y && y <= hy);
                assert!(-hz <= z && z <= hz);
            }
            _ => panic!("box vertices are corners"),
        }
    }
}

#[test]
fn box_mesh_watertight() {
    let (rules, tris) = cube_mesh();
    assert!(check_watertight(&tris, rules.len()));
    // every edge that occurs is shared by exactly two triangles
    assert_eq!(count_edge(&tris, 0, 1), 2);
    assert_eq!(count_edge(&tris, 2, 6), 2);
    // a body diagonal is no edge
    assert_eq!(count_edge(&tris, 0, 6), 0);
}

#[test]
fn wedge_mesh_counts() {
    let (rules, tris) = wedge_mesh();
    assert_eq!(rules.len(), 6);
    assert_eq!(tris.len(), 8);
    assert_eq!(
        rules[4],
        VertexRule::Corner { neg_x: true, neg_y: false, neg_z: false }
    );
    assert_eq!(tris[3], Tri { a: 1, b: 5, c: 4 });
}

#[test]
fn corner_wedge_reuses_wedge() {
    let (wr, wt) = wedge_mesh();
    let (cr, ct) = corner_wedge_mesh();
    assert_eq!(wr, cr);
    assert_eq!(wt, ct);
}

#[test]
fn cylinder_mesh_counts() {
    let (rules, tris) = cylinder_mesh(24);
    assert_eq!(rules.len(), 2 * 24 + 2);
    assert_eq!(tris.len(), 4 * 24);
    assert_eq!(rules[0], VertexRule::Ring { neg_x: true, step: 0, steps: 24 });
    assert_eq!(rules[1], VertexRule::Ring { neg_x: false, step: 0, steps: 24 });
    assert_eq!(rules[48], VertexRule::Cap { neg_x: true });
    assert_eq!(rules[49], VertexRule::Cap { neg_x: false });
    // first segment: two side triangles, one triangle per cap
    assert_eq!(tris[0], Tri { a: 0, b: 2, c: 3 });
    assert_eq!(tris[1], Tri { a: 0, b: 3, c: 1 });
    assert_eq!(tris[2], Tri { a: 0, b: 2, c: 48 });
    assert_eq!(tris[3], Tri { a: 1, b: 3, c: 49 });
    // the last segment wraps around to ring 0
    assert_eq!(tris[92], Tri { a: 46, b: 0, c: 1 });
    assert_eq!(tris[95], Tri { a: 47, b: 1, c: 49 });
}

#[test]
fn sphere_subdivision_counts() {
    let (r0, t0) = sphere_mesh(0);
    let (r1, t1) = sphere_mesh(1);
    let (r2, t2) = sphere_mesh(2);
    assert_eq!((r0.len(), t0.len()), (12, 20));
    assert_eq!((r1.len(), t1.len()), (42, 80));
    assert_eq!((r2.len(), t2.len()), (162, 320));
    // each pass quadruples the triangles and adds one vertex per distinct
    // edge: the icosahedron has 30 edges, the level-1 mesh 120
    assert_eq!(t1.len(), 4 * t0.len());
    assert_eq!(t2.len(), 4 * t1.len());
    assert_eq!(r1.len() - r0.len(), 30);
    assert_eq!(r2.len() - r1.len(), 120);
}

#[test]
fn sphere_faces_in_bounds() {
    let (rules, tris) = sphere_mesh(2);
    for t in &tris {
        assert!(t.a < rules.len() && t.b < rules.len() && t.c < rules.len());
    }
}

#[test]
fn sphere_vertices_unit_length() {
    let (rules, _) = sphere_mesh(2);
    let pos = eval_unit_sphere(&rules);
    for p in &pos {
        let len = (p[0] * p[0] + p[1] * p[1] + p[2] * p[2]).sqrt();
        assert!((len - 1.0).abs() < 1e-9);
    }
}

#[test]
fn sphere_shares_edge_midpoints() {
    // adjacent triangles of the icosahedron share midpoint vertices, so one
    // subdivision yields 42 distinct vertices, not 20 * 3 + 12
    let (rules, tris) = sphere_mesh(1);
    assert_eq!(rules.len(), 42);
    // every midpoint vertex names two earlier vertices
    for (i, r) in rules.iter().enumerate() {
        if let VertexRule::Midpoint { a, b } = *r {
            assert!(a < b && b < i);
        }
    }
    // the four triangles replacing one face stay within the vertex list
    for t in &tris {
        assert!(t.a < 42 && t.b < 42 && t.c < 42);
    }
}

#[test]
fn midpoint_cache_symmetric() {
    let (mut rules, _) = sphere_mesh(0);
    let mut cache: Vec<CacheEntry> = Vec::new();
    let first = get_midpoint(&mut rules, &mut cache, 3, 7);
    let swapped = get_midpoint(&mut rules, &mut cache, 7, 3);
    assert_eq!(first, swapped);
    assert_eq!(first, 12);
    assert_eq!(rules.len(), 13);
    assert_eq!(cache.len(), 1);
    // a different edge gets a fresh vertex
    let other = get_midpoint(&mut rules, &mut cache, 3, 8);
    assert_eq!(other, 13);
}
