//! The scene flattener: a depth-first pre-order walk of the instance tree
//! that builds the meshes of recognized instances, assigns each its material
//! index, and assembles one global buffer with running vertex offsets.

use vstd::prelude::*;

use crate::material::{assign_index, push_key, ColorKey, MaterialTable};
use crate::mesh::{tri_in_bounds, tris_in_bounds, Tri, VertexRule};
use crate::primitives::{cube_mesh, cube_rules, cube_tris, cylinder_mesh, cylinder_rules,
    cylinder_tris, lemma_box_tris_bounded, lemma_cylinder_tris_bounded, lemma_wedge_tris_bounded,
    wedge_mesh, wedge_rules, wedge_tris};
use crate::scene::{color_or_default, forest_emits, lemma_forest_emits_all,
    lemma_forest_emits_snoc, node_emits, node_head, resolve_shape, Emit, SceneNode, ShapeKind};
use crate::sphere::{lemma_sphere_model_wf, sphere_mesh, sphere_model};

verus! {

/// Radial segments of the cylinder approximation.
pub const CYLINDER_STEPS: usize = 24;

/// Subdivision level of the geodesic sphere.
pub const BALL_SUBDIVISIONS: usize = 2;

/// One instance's contribution to the global buffer: its tag and material
/// index, the global index of its first vertex, its vertex rules, and its
/// triangles with globally offset indices.
pub struct Chunk {
    pub tag: usize,
    pub material: usize,
    pub first_vertex: usize,
    pub rules: Vec<VertexRule>,
    pub faces: Vec<Tri>,
}

/// The flattened scene: the chunks in traversal order and the total vertex
/// count, which is also the running offset after the last chunk.
pub struct GlobalMeshBuffer {
    pub chunks: Vec<Chunk>,
    pub vertex_count: usize,
}

/// The mathematical content of one chunk.
pub struct ChunkModel {
    pub tag: usize,
    pub material: int,
    pub first_vertex: int,
    pub rules: Seq<VertexRule>,
    pub faces: Seq<Tri>,
}

/// The mathematical content of a chunk value.
pub open spec fn chunk_model(c: Chunk) -> ChunkModel {
    ChunkModel {
        tag: c.tag,
        material: c.material as int,
        first_vertex: c.first_vertex as int,
        rules: c.rules@,
        faces: c.faces@,
    }
}

/// The mathematical content of a buffer value.
pub open spec fn buffer_model(b: GlobalMeshBuffer) -> Seq<ChunkModel> {
    b.chunks@.map_values(|c: Chunk| chunk_model(c))
}

/// The local mesh of a shape kind: vertex rules and triangles.
pub open spec fn mesh_model(k: ShapeKind) -> (Seq<VertexRule>, Seq<Tri>) {
    match k {
        ShapeKind::Block => (cube_rules(), cube_tris()),
        ShapeKind::Wedge => (wedge_rules(), wedge_tris()),
        ShapeKind::CornerWedge => (wedge_rules(), wedge_tris()),
        ShapeKind::Cylinder => (
            cylinder_rules(CYLINDER_STEPS as int),
            cylinder_tris(CYLINDER_STEPS as int),
        ),
        ShapeKind::Ball => sphere_model(BALL_SUBDIVISIONS as int),
    }
}

/// Every shape's triangles index only its own vertices, and no shape has
/// more than 400 vertices.
pub proof fn lemma_mesh_model_wf(k: ShapeKind)
    ensures
        tris_in_bounds(mesh_model(k).1, mesh_model(k).0.len() as int),
        mesh_model(k).0.len() <= 400,
{
    match k {
        ShapeKind::Block => lemma_box_tris_bounded(),
        ShapeKind::Wedge => lemma_wedge_tris_bounded(),
        ShapeKind::CornerWedge => lemma_wedge_tris_bounded(),
        ShapeKind::Cylinder => lemma_cylinder_tris_bounded(CYLINDER_STEPS as int),
        ShapeKind::Ball => lemma_sphere_model_wf(BALL_SUBDIVISIONS as int),
    }
}

/// A triangle with its indices shifted by the global offset `off`.
pub open spec fn shift_tri(t: Tri, off: int) -> Tri {
    Tri { a: (t.a + off) as usize, b: (t.b + off) as usize, c: (t.c + off) as usize }
}

/// A triangle list with all indices shifted by `off`.
pub open spec fn shift_tris(ts: Seq<Tri>, off: int) -> Seq<Tri> {
    ts.map_values(|t: Tri| shift_tri(t, off))
}

/// The effect of one emission on the flattened state: a chunk holding the
/// shape's mesh at the current offset is appended, its key is registered,
/// and the offset advances by the shape's vertex count.
pub open spec fn apply_emit(
    chunks: Seq<ChunkModel>,
    keys: Seq<ColorKey>,
    vcount: int,
    e: Emit,
) -> (Seq<ChunkModel>, Seq<ColorKey>, int) {
    let m = mesh_model(e.kind);
    (
        chunks.push(
            ChunkModel {
                tag: e.tag,
                material: assign_index(keys, e.key),
                first_vertex: vcount,
                rules: m.0,
                faces: shift_tris(m.1, vcount),
            },
        ),
        push_key(keys, e.key),
        vcount + m.0.len(),
    )
}

/// The flattened state after a sequence of emissions.
pub open spec fn apply_emits(
    chunks: Seq<ChunkModel>,
    keys: Seq<ColorKey>,
    vcount: int,
    es: Seq<Emit>,
) -> (Seq<ChunkModel>, Seq<ColorKey>, int)
    decreases es.len(),
{
    if es.len() == 0 {
        (chunks, keys, vcount)
    } else {
        let prev = apply_emits(chunks, keys, vcount, es.drop_last());
        apply_emit(prev.0, prev.1, prev.2, es.last())
    }
}

/// The total vertex count a sequence of emissions asks for.
pub open spec fn emits_vlen(es: Seq<Emit>) -> int
    decreases es.len(),
{
    if es.len() == 0 {
        0
    } else {
        emits_vlen(es.drop_last()) + mesh_model(es.last().kind).0.len()
    }
}

/// Emission totals are nonnegative.
pub proof fn lemma_emits_vlen_nonneg(es: Seq<Emit>)
    ensures
        emits_vlen(es) >= 0,
    decreases es.len(),
{
    if es.len() > 0 {
        lemma_emits_vlen_nonneg(es.drop_last());
    }
}

/// Emission totals add over concatenation.
pub proof fn lemma_emits_vlen_concat(a: Seq<Emit>, b: Seq<Emit>)
    ensures
        emits_vlen(a + b) == emits_vlen(a) + emits_vlen(b),
    decreases b.len(),
{
    if b.len() == 0 {
        assert(a + b =~= a);
    } else {
        assert((a + b).drop_last() =~= a + b.drop_last());
        assert((a + b).last() == b.last());
        lemma_emits_vlen_concat(a, b.drop_last());
    }
}

/// Applying concatenated emissions is applying them in turn.
pub proof fn lemma_apply_emits_concat(
    chunks: Seq<ChunkModel>,
    keys: Seq<ColorKey>,
    vcount: int,
    a: Seq<Emit>,
    b: Seq<Emit>,
)
    ensures
        ({
            let p = apply_emits(chunks, keys, vcount, a);
            apply_emits(chunks, keys, vcount, a + b) == apply_emits(p.0, p.1, p.2, b)
        }),
    decreases b.len(),
{
    if b.len() == 0 {
        assert(a + b =~= a);
    } else {
        assert((a + b).drop_last() =~= a + b.drop_last());
        assert((a + b).last() == b.last());
        lemma_apply_emits_concat(chunks, keys, vcount, a, b.drop_last());
    }
}

/// The final offset after a sequence of emissions is the start offset plus
/// the emissions' total vertex count.
pub proof fn lemma_apply_emits_vcount(
    chunks: Seq<ChunkModel>,
    keys: Seq<ColorKey>,
    vcount: int,
    es: Seq<Emit>,
)
    ensures
        apply_emits(chunks, keys, vcount, es).2 == vcount + emits_vlen(es),
    decreases es.len(),
{
    if es.len() > 0 {
        lemma_apply_emits_vcount(chunks, keys, vcount, es.drop_last());
    }
}

/// All three indices of `t` lie in the vertex range `[first, first + n)`.
pub open spec fn tri_range(t: Tri, first: int, n: int) -> bool {
    &&& first <= t.a < first + n
    &&& first <= t.b < first + n
    &&& first <= t.c < first + n
}

/// Every triangle of chunk `c` indexes only `c`'s own vertex range, which
/// ends at or before `vcount`.
pub open spec fn chunk_wf(c: ChunkModel, vcount: int) -> bool {
    &&& 0 <= c.first_vertex
    &&& c.first_vertex + c.rules.len() <= vcount
    &&& forall|j: int|
        0 <= j < c.faces.len() ==> tri_range(
            #[trigger] c.faces[j],
            c.first_vertex,
            c.rules.len() as int,
        )
}

/// The buffer invariant: the chunks cover consecutive vertex ranges starting
/// at zero, the final offset equals the total vertex count, and every
/// triangle index is strictly below that count.
pub open spec fn buffer_wf(chunks: Seq<ChunkModel>, vcount: int) -> bool {
    &&& forall|i: int| 0 <= i < chunks.len() ==> chunk_wf(#[trigger] chunks[i], vcount)
    &&& forall|i: int|
        0 <= i < chunks.len() ==> (#[trigger] chunks[i]).first_vertex == (if i == 0 {
            0int
        } else {
            chunks[i - 1].first_vertex + chunks[i - 1].rules.len()
        })
    &&& vcount == (if chunks.len() == 0 {
        0int
    } else {
        chunks.last().first_vertex + chunks.last().rules.len()
    })
}

/// Law: flattening any emission sequence whose total vertex count fits the
/// machine's index range yields a buffer in which every triangle index is
/// strictly less than the total vertex count, the chunks' vertex ranges are
/// consecutive from zero, and the final running offset equals that count.
pub proof fn lemma_flatten_buffer_wf(es: Seq<Emit>)
    requires
        emits_vlen(es) <= usize::MAX,
    ensures
        ({
            let s = apply_emits(Seq::<ChunkModel>::empty(), Seq::<ColorKey>::empty(), 0, es);
            &&& buffer_wf(s.0, s.2)
            &&& s.2 == emits_vlen(es)
        }),
    decreases es.len(),
{
    lemma_apply_emits_vcount(Seq::<ChunkModel>::empty(), Seq::<ColorKey>::empty(), 0, es);
    if es.len() == 0 {
    } else {
        let pre = es.drop_last();
        lemma_flatten_buffer_wf(pre);
        lemma_apply_emits_vcount(Seq::<ChunkModel>::empty(), Seq::<ColorKey>::empty(), 0, pre);
        let p = apply_emits(Seq::<ChunkModel>::empty(), Seq::<ColorKey>::empty(), 0, pre);
        let e = es.last();
        let m = mesh_model(e.kind);
        lemma_mesh_model_wf(e.kind);
        let s = apply_emits(Seq::<ChunkModel>::empty(), Seq::<ColorKey>::empty(), 0, es);
        let nc = s.0.last();
        assert(nc.first_vertex == p.2 && nc.rules == m.0 && nc.faces == shift_tris(m.1, p.2));
        assert forall|j: int| 0 <= j < nc.faces.len() implies tri_range(
            #[trigger] nc.faces[j],
            nc.first_vertex,
            nc.rules.len() as int,
        ) by {
            assert(nc.faces[j] == shift_tri(m.1[j], p.2));
            assert(tri_in_bounds(m.1[j], m.0.len() as int));
            assert(m.1[j].a + p.2 <= usize::MAX && m.1[j].b + p.2 <= usize::MAX && m.1[j].c + p.2
                <= usize::MAX);
        }
        assert forall|i: int| 0 <= i < s.0.len() implies chunk_wf(#[trigger] s.0[i], s.2) by {
            if i < p.0.len() {
                assert(s.0[i] == p.0[i]);
                assert(chunk_wf(p.0[i], p.2));
            } else {
                assert(s.0[i] == nc);
            }
        }
        assert forall|i: int| 0 <= i < s.0.len() implies (#[trigger] s.0[i]).first_vertex == (if i
            == 0 {
            0int
        } else {
            s.0[i - 1].first_vertex + s.0[i - 1].rules.len()
        }) by {
            if i < p.0.len() {
                assert(s.0[i] == p.0[i]);
                if i > 0 {
                    assert(s.0[i - 1] == p.0[i - 1]);
                }
            } else {
                assert(s.0[i] == nc);
                if p.0.len() == 0 {
                    assert(i == 0);
                } else {
                    assert(s.0[i - 1] == p.0[p.0.len() - 1]);
                    assert(p.0[p.0.len() - 1] == p.0.last());
                }
            }
        }
    }
}

/// Builds the local mesh of a shape kind.
pub fn build_mesh(k: ShapeKind) -> (r: (Vec<VertexRule>, Vec<Tri>))
    ensures
        r.0@ == mesh_model(k).0,
        r.1@ == mesh_model(k).1,
{
    match k {
        ShapeKind::Block => cube_mesh(),
        ShapeKind::Wedge => wedge_mesh(),
        ShapeKind::CornerWedge => wedge_mesh(),
        ShapeKind::Cylinder => cylinder_mesh(CYLINDER_STEPS),
        ShapeKind::Ball => sphere_mesh(BALL_SUBDIVISIONS),
    }
}

/// Appends one instance's geometry: builds the mesh, resolves the material,
/// shifts the triangle indices by the running offset and advances it.
/// Returns `false`, leaving the buffer unchanged, exactly when the new
/// offset would not fit.
fn append_chunk(
    buf: &mut GlobalMeshBuffer,
    mats: &mut MaterialTable,
    kind: ShapeKind,
    key: ColorKey,
    tag: usize,
) -> (ok: bool)
    requires
        old(mats).wf(),
    ensures
        final(mats).wf(),
        ok ==> ({
            let s = apply_emit(
                buffer_model(*old(buf)),
                old(mats).keys@,
                old(buf).vertex_count as int,
                Emit { kind, key, tag },
            );
            buffer_model(*final(buf)) == s.0 && final(mats).keys@ == s.1
                && final(buf).vertex_count == s.2
        }),
        !ok ==> *final(buf) == *old(buf) && *final(mats) == *old(mats) && old(buf).vertex_count
            + mesh_model(kind).0.len() > usize::MAX,
{
    let (rules, faces) = build_mesh(kind);
    proof {
        lemma_mesh_model_wf(kind);
    }
    let n = rules.len();
    let off = buf.vertex_count;
    if n > usize::MAX - off {
        return false;
    }
    let mat = mats.material_for(key);
    let mut shifted: Vec<Tri> = Vec::new();
    let mut i: usize = 0;
    while i < faces.len()
        invariant
            i <= faces@.len(),
            faces@ == mesh_model(kind).1,
            rules@ == mesh_model(kind).0,
            tris_in_bounds(faces@, rules@.len() as int),
            off + rules@.len() <= usize::MAX,
            n == rules@.len(),
            shifted@.len() == i,
            forall|j: int| 0 <= j < i ==> shifted@[j] == shift_tri(faces@[j], off as int),
        decreases faces@.len() - i,
    {
        let t = faces[i];
        shifted.push(Tri { a: t.a + off, b: t.b + off, c: t.c + off });
        i = i + 1;
    }
    proof {
        assert(shifted@ =~= shift_tris(faces@, off as int));
    }
    buf.chunks.push(Chunk { tag, material: mat, first_vertex: off, rules, faces: shifted });
    buf.vertex_count = off + n;
    proof {
        let e = Emit { kind, key, tag };
        let s = apply_emit(
            buffer_model(*old(buf)),
            old(mats).keys@,
            old(buf).vertex_count as int,
            e,
        );
        assert(buffer_model(*buf) =~= s.0);
    }
    true
}

/// Flattens one instance and, whatever it contributed, its whole subtree,
/// in depth-first pre-order. Returns `false` exactly when the total vertex
/// count would exceed the index range; the material table stays consistent
/// either way.
fn flatten_node(n: &SceneNode, buf: &mut GlobalMeshBuffer, mats: &mut MaterialTable) -> (ok: bool)
    requires
        old(mats).wf(),
    ensures
        final(mats).wf(),
        ok ==> ({
            let s = apply_emits(
                buffer_model(*old(buf)),
                old(mats).keys@,
                old(buf).vertex_count as int,
                node_emits(*n),
            );
            buffer_model(*final(buf)) == s.0 && final(mats).keys@ == s.1
                && final(buf).vertex_count == s.2
        }),
        !ok ==> old(buf).vertex_count + emits_vlen(node_emits(*n)) > usize::MAX,
    decreases *n,
{
    let ghost chunks0 = buffer_model(*old(buf));
    let ghost keys0 = old(mats).keys@;
    let ghost v0 = old(buf).vertex_count as int;
    let ghost head = node_head(*n);

    proof {
        lemma_emits_vlen_concat(head, forest_emits(n.children@));
        assert(node_emits(*n) == head + forest_emits(n.children@));
    }

    match resolve_shape(&n.class, &n.shape) {
        Some(kind) => {
            let c = color_or_default(&n.color);
            let key = ColorKey { r: c.r, g: c.g, b: c.b, a: n.alpha };
            let ghost e = Emit { kind, key, tag: n.tag };
            let ok = append_chunk(buf, mats, kind, key, n.tag);
            proof {
                assert(head =~= seq![e]);
                assert(head.drop_last() =~= Seq::<Emit>::empty());
                assert(head.last() == e);
                assert(emits_vlen(Seq::<Emit>::empty()) == 0);
                assert(emits_vlen(head) == mesh_model(kind).0.len());
                if !ok {
                    lemma_emits_vlen_nonneg(forest_emits(n.children@));
                } else {
                    assert(apply_emits(chunks0, keys0, v0, Seq::<Emit>::empty()) == (
                        chunks0,
                        keys0,
                        v0,
                    ));
                    assert(apply_emits(chunks0, keys0, v0, head) == apply_emit(
                        chunks0,
                        keys0,
                        v0,
                        e,
                    ));
                }
            }
            if !ok {
                return false;
            }
        },
        None => {
            proof {
                assert(head =~= Seq::<Emit>::empty());
            }
        },
    }

    proof {
        assert(n.children@.subrange(0, 0) =~= Seq::<SceneNode>::empty());
        assert(forest_emits(n.children@.subrange(0, 0)) == Seq::<Emit>::empty());
        assert(head + forest_emits(n.children@.subrange(0, 0)) =~= head);
    }
    let mut i: usize = 0;
    while i < n.children.len()
        invariant
            i <= n.children@.len(),
            mats.wf(),
            head == node_head(*n),
            chunks0 == buffer_model(*old(buf)),
            keys0 == old(mats).keys@,
            v0 == old(buf).vertex_count as int,
            ({
                let s = apply_emits(
                    chunks0,
                    keys0,
                    v0,
                    head + forest_emits(n.children@.subrange(0, i as int)),
                );
                buffer_model(*buf) == s.0 && mats.keys@ == s.1 && buf.vertex_count == s.2
            }),
        decreases n.children@.len() - i,
    {
        let ghost done = head + forest_emits(n.children@.subrange(0, i as int));
        let ghost child_emits = node_emits(n.children@[i as int]);
        let ghost v_before = buf.vertex_count as int;
        let ok = flatten_node(&n.children[i], buf, mats);
        proof {
            lemma_apply_emits_concat(chunks0, keys0, v0, done, child_emits);
            if !ok {
                // the failing subtree alone already pushes the total over
                lemma_apply_emits_vcount(chunks0, keys0, v0, done);
                lemma_emits_vlen_concat(head, forest_emits(n.children@.subrange(0, i as int)));
                lemma_forest_split(n.children@, i as int);
                lemma_emits_vlen_concat(head, forest_emits(n.children@));
                assert(node_emits(*n) == head + forest_emits(n.children@));
                assert(v_before == v0 + emits_vlen(done));
                assert(emits_vlen(forest_emits(n.children@)) == emits_vlen(
                    forest_emits(n.children@.subrange(0, i as int)),
                ) + emits_vlen(child_emits) + emits_vlen(
                    forest_emits(n.children@.subrange(i as int + 1, n.children@.len() as int)),
                ));
                lemma_emits_vlen_nonneg(
                    forest_emits(n.children@.subrange(i as int + 1, n.children@.len() as int)),
                );
                assert(v_before + emits_vlen(child_emits) > usize::MAX);
            } else {
                lemma_forest_emits_snoc(n.children@, i as int);
                assert(done + child_emits =~= head + forest_emits(
                    n.children@.subrange(0, i as int + 1),
                ));
            }
        }
        if !ok {
            return false;
        }
        i = i + 1;
    }
    proof {
        lemma_forest_emits_all(n.children@);
        assert(head + forest_emits(n.children@) == node_emits(*n));
    }
    true
}

/// A forest's emissions split around any one node: the emissions of the
/// nodes before it, its own subtree's, and those of the nodes after it.
pub proof fn lemma_forest_split(s: Seq<SceneNode>, i: int)
    requires
        0 <= i < s.len(),
    ensures
        forest_emits(s) == forest_emits(s.subrange(0, i)) + node_emits(s[i]) + forest_emits(
            s.subrange(i + 1, s.len() as int),
        ),
        emits_vlen(forest_emits(s)) == emits_vlen(forest_emits(s.subrange(0, i))) + emits_vlen(
            node_emits(s[i]),
        ) + emits_vlen(forest_emits(s.subrange(i + 1, s.len() as int))),
{
    let pre = s.subrange(0, i + 1);
    let rest = s.subrange(i + 1, s.len() as int);
    assert(s =~= pre + rest);
    lemma_forest_concat(pre, rest);
    lemma_forest_emits_snoc(s, i);
    assert(forest_emits(pre) == forest_emits(s.subrange(0, i)) + node_emits(s[i]));
    lemma_emits_vlen_concat(forest_emits(pre), forest_emits(rest));
    lemma_emits_vlen_concat(forest_emits(s.subrange(0, i)), node_emits(s[i]));
    assert(forest_emits(s.subrange(0, i)) + node_emits(s[i]) + forest_emits(rest)
        =~= (forest_emits(s.subrange(0, i)) + node_emits(s[i])) + forest_emits(rest));
}

/// Emissions of concatenated forests concatenate.
pub proof fn lemma_forest_concat(a: Seq<SceneNode>, b: Seq<SceneNode>)
    ensures
        forest_emits(a + b) == forest_emits(a) + forest_emits(b),
    decreases a.len(),
{
    if a.len() == 0 {
        assert(a + b =~= b);
        assert(forest_emits(a) + forest_emits(b) =~= forest_emits(b));
    } else {
        assert((a + b)[0] == a[0]);
        assert((a + b).drop_first() =~= a.drop_first() + b);
        lemma_forest_concat(a.drop_first(), b);
        assert(node_emits(a[0]) + (forest_emits(a.drop_first()) + forest_emits(b)) =~= (node_emits(
            a[0],
        ) + forest_emits(a.drop_first())) + forest_emits(b));
    }
}

/// Flattens the instance forest into one global buffer and its material
/// table. Returns `None` exactly when the scene's total vertex count would
/// exceed the index range of the machine.
pub fn flatten(roots: &Vec<SceneNode>) -> (r: Option<(GlobalMeshBuffer, MaterialTable)>)
    ensures
        match r {
            Some(p) => ({
                let s = apply_emits(
                    Seq::<ChunkModel>::empty(),
                    Seq::<ColorKey>::empty(),
                    0,
                    forest_emits(roots@),
                );
                &&& buffer_model(p.0) == s.0
                &&& p.1.keys@ == s.1
                &&& p.0.vertex_count == s.2
                &&& p.1.wf()
                &&& buffer_wf(buffer_model(p.0), p.0.vertex_count as int)
            }),
            None => emits_vlen(forest_emits(roots@)) > usize::MAX,
        },
{
    let mut buf = GlobalMeshBuffer { chunks: Vec::new(), vertex_count: 0 };
    let mut mats = MaterialTable::new();
    proof {
        assert(buffer_model(buf) =~= Seq::<ChunkModel>::empty());
        assert(roots@.subrange(0, 0) =~= Seq::<SceneNode>::empty());
        assert(forest_emits(roots@.subrange(0, 0)) == Seq::<Emit>::empty());
    }
    let mut i: usize = 0;
    while i < roots.len()
        invariant
            i <= roots@.len(),
            mats.wf(),
            ({
                let s = apply_emits(
                    Seq::<ChunkModel>::empty(),
                    Seq::<ColorKey>::empty(),
                    0,
                    forest_emits(roots@.subrange(0, i as int)),
                );
                buffer_model(buf) == s.0 && mats.keys@ == s.1 && buf.vertex_count == s.2
            }),
        decreases roots@.len() - i,
    {
        let ghost done = forest_emits(roots@.subrange(0, i as int));
        let ghost child_emits = node_emits(roots@[i as int]);
        let ghost v_before = buf.vertex_count as int;
        let ok = flatten_node(&roots[i], &mut buf, &mut mats);
        proof {
            lemma_apply_emits_concat(
                Seq::<ChunkModel>::empty(),
                Seq::<ColorKey>::empty(),
                0,
                done,
                child_emits,
            );
            lemma_forest_emits_snoc(roots@, i as int);
            if !ok {
                lemma_apply_emits_vcount(
                    Seq::<ChunkModel>::empty(),
                    Seq::<ColorKey>::empty(),
                    0,
                    done,
                );
                lemma_forest_split(roots@, i as int);
                lemma_emits_vlen_nonneg(
                    forest_emits(roots@.subrange(i as int + 1, roots@.len() as int)),
                );
                assert(v_before == emits_vlen(done));
                assert(v_before + emits_vlen(child_emits) > usize::MAX);
            }
        }
        if !ok {
            return None;
        }
        i = i + 1;
    }
    proof {
        lemma_forest_emits_all(roots@);
        lemma_apply_emits_vcount(
            Seq::<ChunkModel>::empty(),
            Seq::<ColorKey>::empty(),
            0,
            forest_emits(roots@),
        );
        lemma_flatten_buffer_wf(forest_emits(roots@));
    }
    Some((buf, mats))
}

} // verus!
