//! Geodesic sphere meshes: icosahedron seeds and recursive subdivision with
//! shared-midpoint caching.
//!
//! Subdivision is purely combinatorial here: every new vertex is a
//! [`VertexRule::Midpoint`] naming the two vertices it bisects, and the cache
//! guarantees that the two triangles sharing an edge also share its midpoint
//! vertex. The contracts pin the whole construction to the spec-level model
//! [`sphere_model`].

use vstd::prelude::*;

use crate::mesh::{tri_in_bounds, tris_in_bounds, Tri, VertexRule};

verus! {

/// One midpoint-cache entry: the normalized endpoint pair `(lo, hi)` of an
/// undirected edge, and the index of the vertex generated for its midpoint.
#[derive(Clone, Copy, PartialEq, Eq, Structural, Debug)]
pub struct CacheEntry {
    pub lo: usize,
    pub hi: usize,
    pub idx: usize,
}

/// The undirected edge `{a, b}` as an ordered pair.
pub open spec fn edge_of(a: usize, b: usize) -> (usize, usize) {
    if a < b {
        (a, b)
    } else {
        (b, a)
    }
}

/// First cache entry for the normalized pair `(lo, hi)`, if any.
pub open spec fn cache_find(cache: Seq<CacheEntry>, lo: usize, hi: usize) -> Option<usize>
    decreases cache.len(),
{
    if cache.len() == 0 {
        None
    } else if cache[0].lo == lo && cache[0].hi == hi {
        Some(cache[0].idx)
    } else {
        cache_find(cache.drop_first(), lo, hi)
    }
}

/// The effect of requesting the midpoint of `{a, b}`: an unchanged state and
/// the cached index on a hit, or a fresh `Midpoint` vertex and cache entry on
/// a miss.
pub open spec fn mid_step(rules: Seq<VertexRule>, cache: Seq<CacheEntry>, a: usize, b: usize) -> (
    Seq<VertexRule>,
    Seq<CacheEntry>,
    usize,
) {
    let e = edge_of(a, b);
    match cache_find(cache, e.0, e.1) {
        Some(i) => (rules, cache, i),
        None => (
            rules.push(VertexRule::Midpoint { a: e.0, b: e.1 }),
            cache.push(CacheEntry { lo: e.0, hi: e.1, idx: rules.len() as usize }),
            rules.len() as usize,
        ),
    }
}

/// The effect of subdividing one triangle `t`: midpoints of its three edges
/// are acquired in order, and four triangles replace it.
pub open spec fn face_step(
    rules: Seq<VertexRule>,
    cache: Seq<CacheEntry>,
    out: Seq<Tri>,
    t: Tri,
) -> (Seq<VertexRule>, Seq<CacheEntry>, Seq<Tri>) {
    let s1 = mid_step(rules, cache, t.a, t.b);
    let s2 = mid_step(s1.0, s1.1, t.b, t.c);
    let s3 = mid_step(s2.0, s2.1, t.c, t.a);
    (
        s3.0,
        s3.1,
        out + seq![
            Tri { a: t.a, b: s1.2, c: s3.2 },
            Tri { a: t.b, b: s2.2, c: s1.2 },
            Tri { a: t.c, b: s3.2, c: s2.2 },
            Tri { a: s1.2, b: s2.2, c: s3.2 },
        ],
    )
}

/// The state after subdividing the first `k` triangles of `faces`, starting
/// from vertex list `rules` and an empty cache.
pub open spec fn subdiv_upto(rules: Seq<VertexRule>, faces: Seq<Tri>, k: int) -> (
    Seq<VertexRule>,
    Seq<CacheEntry>,
    Seq<Tri>,
)
    decreases k,
{
    if k <= 0 {
        (rules, Seq::empty(), Seq::empty())
    } else {
        let prev = subdiv_upto(rules, faces, k - 1);
        face_step(prev.0, prev.1, prev.2, faces[k - 1])
    }
}

/// One whole subdivision pass: the extended vertex list and the new triangle
/// list.
pub open spec fn subdivide_model(rules: Seq<VertexRule>, faces: Seq<Tri>) -> (
    Seq<VertexRule>,
    Seq<Tri>,
) {
    let s = subdiv_upto(rules, faces, faces.len() as int);
    (s.0, s.2)
}

/// The 12 icosahedron seed vertices.
pub open spec fn ico_rules() -> Seq<VertexRule> {
    Seq::new(12, |i: int| VertexRule::Seed { index: i as usize })
}

/// The 20 icosahedron triangles.
pub open spec fn ico_tris() -> Seq<Tri> {
    seq![
        Tri { a: 0, b: 11, c: 5 },
        Tri { a: 0, b: 5, c: 1 },
        Tri { a: 0, b: 1, c: 7 },
        Tri { a: 0, b: 7, c: 10 },
        Tri { a: 0, b: 10, c: 11 },
        Tri { a: 1, b: 5, c: 9 },
        Tri { a: 5, b: 11, c: 4 },
        Tri { a: 11, b: 10, c: 2 },
        Tri { a: 10, b: 7, c: 6 },
        Tri { a: 7, b: 1, c: 8 },
        Tri { a: 3, b: 9, c: 4 },
        Tri { a: 3, b: 4, c: 2 },
        Tri { a: 3, b: 2, c: 6 },
        Tri { a: 3, b: 6, c: 8 },
        Tri { a: 3, b: 8, c: 9 },
        Tri { a: 4, b: 9, c: 5 },
        Tri { a: 2, b: 4, c: 11 },
        Tri { a: 6, b: 2, c: 10 },
        Tri { a: 8, b: 6, c: 7 },
        Tri { a: 9, b: 8, c: 1 },
    ]
}

/// The geodesic sphere mesh after `level` subdivision passes over the
/// icosahedron.
pub open spec fn sphere_model(level: int) -> (Seq<VertexRule>, Seq<Tri>)
    decreases level,
{
    if level <= 0 {
        (ico_rules(), ico_tris())
    } else {
        let prev = sphere_model(level - 1);
        subdivide_model(prev.0, prev.1)
    }
}

/// Law: the midpoint cache is symmetric. Requesting the midpoint of `(a, b)`
/// and of `(b, a)` in the same state has the same effect and yields the same
/// vertex index.
pub proof fn lemma_midpoint_symmetric(
    rules: Seq<VertexRule>,
    cache: Seq<CacheEntry>,
    a: usize,
    b: usize,
)
    ensures
        mid_step(rules, cache, a, b) == mid_step(rules, cache, b, a),
{
    assert(edge_of(a, b) == edge_of(b, a));
}

/// `t` has three pairwise distinct corners.
pub open spec fn tri_proper(t: Tri) -> bool {
    t.a != t.b && t.b != t.c && t.c != t.a
}

/// Every triangle of `ts` has three pairwise distinct corners.
pub open spec fn tris_proper(ts: Seq<Tri>) -> bool {
    forall|i: int| 0 <= i < ts.len() ==> tri_proper(#[trigger] ts[i])
}

/// The set of normalized undirected edges of the first `k` triangles.
pub open spec fn edge_set_upto(faces: Seq<Tri>, k: int) -> Set<(usize, usize)>
    decreases k,
{
    if k <= 0 {
        Set::empty()
    } else {
        let t = faces[k - 1];
        edge_set_upto(faces, k - 1).insert(edge_of(t.a, t.b)).insert(edge_of(t.b, t.c)).insert(
            edge_of(t.c, t.a),
        )
    }
}

/// The set of normalized undirected edges of all triangles of `faces`.
pub open spec fn edge_set(faces: Seq<Tri>) -> Set<(usize, usize)> {
    edge_set_upto(faces, faces.len() as int)
}

/// The normalized endpoint pair of a cache entry.
pub open spec fn entry_key(e: CacheEntry) -> (usize, usize) {
    (e.lo, e.hi)
}

/// The set of normalized endpoint pairs present in the cache.
pub open spec fn cache_keys(cache: Seq<CacheEntry>) -> Set<(usize, usize)>
    decreases cache.len(),
{
    if cache.len() == 0 {
        Set::empty()
    } else {
        cache_keys(cache.drop_first()).insert(entry_key(cache[0]))
    }
}

/// No two cache entries have the same endpoint pair.
pub open spec fn keys_distinct(cache: Seq<CacheEntry>) -> bool {
    forall|i: int, j: int|
        #![trigger cache[i], cache[j]]
        0 <= i < j < cache.len() ==> entry_key(cache[i]) != entry_key(cache[j])
}

/// Internal consistency of one subdivision pass that started with `base`
/// vertices: cache entries were allocated one vertex each, consecutively
/// from `base` on, with pairwise distinct keys.
pub open spec fn cache_inv(base: int, rules: Seq<VertexRule>, cache: Seq<CacheEntry>) -> bool {
    &&& rules.len() == base + cache.len()
    &&& rules.len() <= usize::MAX
    &&& forall|i: int| 0 <= i < cache.len() ==> (#[trigger] cache[i]).idx == base + i
    &&& keys_distinct(cache)
}

proof fn lemma_cache_keys_push(c: Seq<CacheEntry>, e: CacheEntry)
    ensures
        cache_keys(c.push(e)) == cache_keys(c).insert(entry_key(e)),
    decreases c.len(),
{
    if c.len() == 0 {
        assert(c.push(e)[0] == e);
        assert(c.push(e).drop_first() =~= Seq::<CacheEntry>::empty());
        assert(cache_keys(c.push(e)) == cache_keys(c.push(e).drop_first()).insert(entry_key(e)));
        assert(cache_keys(Seq::<CacheEntry>::empty()) == Set::<(usize, usize)>::empty());
        assert(cache_keys(c) == Set::<(usize, usize)>::empty());
    } else {
        assert(c.push(e).drop_first() =~= c.drop_first().push(e));
        lemma_cache_keys_push(c.drop_first(), e);
        assert(cache_keys(c.drop_first()).insert(entry_key(e)).insert(entry_key(c[0]))
            =~= cache_keys(c.drop_first()).insert(entry_key(c[0])).insert(entry_key(e)));
    }
}

proof fn lemma_cache_keys_contains(c: Seq<CacheEntry>, p: (usize, usize))
    ensures
        cache_keys(c).contains(p) <==> exists|i: int|
            0 <= i < c.len() && entry_key(#[trigger] c[i]) == p,
    decreases c.len(),
{
    if c.len() == 0 {
    } else {
        let tail = c.drop_first();
        lemma_cache_keys_contains(tail, p);
        if entry_key(c[0]) == p {
            assert(cache_keys(c).contains(p));
        } else {
            if cache_keys(tail).contains(p) {
                let i = choose|i: int| 0 <= i < tail.len() && entry_key(#[trigger] tail[i]) == p;
                assert(entry_key(c[i + 1]) == p);
            }
            if exists|i: int| 0 <= i < c.len() && entry_key(#[trigger] c[i]) == p {
                let i = choose|i: int| 0 <= i < c.len() && entry_key(#[trigger] c[i]) == p;
                assert(entry_key(tail[i - 1]) == p);
            }
        }
    }
}

proof fn lemma_cache_keys_len(c: Seq<CacheEntry>)
    requires
        keys_distinct(c),
    ensures
        cache_keys(c).finite(),
        cache_keys(c).len() == c.len(),
    decreases c.len(),
{
    broadcast use vstd::set::axiom_set_insert_len, vstd::set::axiom_set_insert_finite;

    if c.len() == 0 {
    } else {
        let tail = c.drop_first();
        assert forall|i: int, j: int|
            #![trigger tail[i], tail[j]]
            0 <= i < j < tail.len() implies entry_key(tail[i]) != entry_key(tail[j]) by {
            assert(tail[i] == c[i + 1] && tail[j] == c[j + 1]);
        }
        lemma_cache_keys_len(tail);
        lemma_cache_keys_contains(tail, entry_key(c[0]));
        if cache_keys(tail).contains(entry_key(c[0])) {
            let i = choose|i: int|
                0 <= i < tail.len() && entry_key(#[trigger] tail[i]) == entry_key(c[0]);
            assert(tail[i] == c[i + 1]);
            assert(entry_key(c[0]) != entry_key(c[i + 1]));
            assert(false);
        }
    }
}

proof fn lemma_cache_find_none(c: Seq<CacheEntry>, lo: usize, hi: usize)
    ensures
        cache_find(c, lo, hi) is None <==> !cache_keys(c).contains((lo, hi)),
    decreases c.len(),
{
    if c.len() == 0 {
    } else {
        lemma_cache_find_none(c.drop_first(), lo, hi);
    }
}

proof fn lemma_cache_find_some(c: Seq<CacheEntry>, lo: usize, hi: usize)
    requires
        cache_find(c, lo, hi) is Some,
    ensures
        exists|i: int|
            0 <= i < c.len() && #[trigger] c[i] == (CacheEntry {
                lo,
                hi,
                idx: cache_find(c, lo, hi)->Some_0,
            }),
    decreases c.len(),
{
    if c[0].lo == lo && c[0].hi == hi {
        assert(c[0] == (CacheEntry { lo, hi, idx: cache_find(c, lo, hi)->Some_0 }));
    } else {
        let tail = c.drop_first();
        lemma_cache_find_some(tail, lo, hi);
        let i = choose|i: int|
            0 <= i < tail.len() && #[trigger] tail[i] == (CacheEntry {
                lo,
                hi,
                idx: cache_find(tail, lo, hi)->Some_0,
            });
        assert(c[i + 1] == tail[i]);
    }
}

proof fn lemma_cache_prefix_trans(x: Seq<CacheEntry>, y: Seq<CacheEntry>, z: Seq<CacheEntry>)
    requires
        x.is_prefix_of(y),
        y.is_prefix_of(z),
    ensures
        x.is_prefix_of(z),
{
    assert(x =~= z.subrange(0, x.len() as int));
}

/// What one midpoint request does to a consistent subdivision state: the key
/// set gains the requested edge, one vertex and one cache entry are added
/// exactly when the edge is new, and the returned index is the one stored for
/// that edge in the cache.
proof fn lemma_mid_step(base: int, rules: Seq<VertexRule>, cache: Seq<CacheEntry>, a: usize, b: usize)
    requires
        cache_inv(base, rules, cache),
        rules.len() < usize::MAX,
    ensures
        ({
            let s = mid_step(rules, cache, a, b);
            let e = edge_of(a, b);
            let grown: int = if cache_keys(cache).contains(e) {
                0
            } else {
                1
            };
            &&& cache_inv(base, s.0, s.1)
            &&& cache.is_prefix_of(s.1)
            &&& rules.is_prefix_of(s.0)
            &&& cache_keys(s.1) == cache_keys(cache).insert(e)
            &&& s.1.len() == cache.len() + grown
            &&& s.0.len() == rules.len() + grown
            &&& exists|i: int|
                0 <= i < s.1.len() && #[trigger] s.1[i] == (CacheEntry {
                    lo: e.0,
                    hi: e.1,
                    idx: s.2,
                })
            &&& base <= s.2 < s.0.len()
        }),
{
    let e = edge_of(a, b);
    let s = mid_step(rules, cache, a, b);
    lemma_cache_find_none(cache, e.0, e.1);
    lemma_cache_keys_contains(cache, e);
    match cache_find(cache, e.0, e.1) {
        Some(v) => {
            lemma_cache_find_some(cache, e.0, e.1);
            let i = choose|i: int|
                0 <= i < cache.len() && #[trigger] cache[i] == (CacheEntry {
                    lo: e.0,
                    hi: e.1,
                    idx: v,
                });
            assert(cache[i].idx == base + i);
            assert(cache_keys(cache).insert(e) =~= cache_keys(cache));
            assert(cache.is_prefix_of(cache)) by {
                assert(cache =~= cache.subrange(0, cache.len() as int));
            }
            assert(rules.is_prefix_of(rules)) by {
                assert(rules =~= rules.subrange(0, rules.len() as int));
            }
        },
        None => {
            let entry = CacheEntry { lo: e.0, hi: e.1, idx: rules.len() as usize };
            lemma_cache_keys_push(cache, entry);
            assert(s.1[cache.len() as int] == entry);
            assert forall|i: int, j: int|
                #![trigger s.1[i], s.1[j]]
                0 <= i < j < s.1.len() implies entry_key(s.1[i]) != entry_key(s.1[j]) by {
                if j < cache.len() {
                    assert(s.1[i] == cache[i] && s.1[j] == cache[j]);
                } else {
                    assert(s.1[j] == entry);
                    assert(s.1[i] == cache[i]);
                    lemma_cache_keys_contains(cache, e);
                }
            }
            assert(cache.is_prefix_of(s.1)) by {
                assert(cache =~= s.1.subrange(0, cache.len() as int));
            }
            assert(rules.is_prefix_of(s.0)) by {
                assert(rules =~= s.0.subrange(0, rules.len() as int));
            }
        },
    }
}

/// The three undirected edges of a proper triangle are pairwise distinct.
proof fn lemma_tri_edges_distinct(t: Tri)
    requires
        tri_proper(t),
    ensures
        edge_of(t.a, t.b) != edge_of(t.b, t.c),
        edge_of(t.b, t.c) != edge_of(t.c, t.a),
        edge_of(t.c, t.a) != edge_of(t.a, t.b),
{
}

/// The edge `{faces[j].a, faces[j].b}` of any already-processed triangle is
/// in the running edge set.
proof fn lemma_edge_set_upto_contains(faces: Seq<Tri>, k: int, j: int)
    requires
        0 <= j < k <= faces.len(),
    ensures
        edge_set_upto(faces, k).contains(edge_of(faces[j].a, faces[j].b)),
    decreases k,
{
    if j < k - 1 {
        lemma_edge_set_upto_contains(faces, k - 1, j);
    }
}

/// The invariant of one subdivision pass over the first `k` triangles:
/// the cache keys are exactly the undirected edges seen so far, the vertex
/// list has grown by exactly one vertex per distinct edge, four triangles
/// were emitted per input triangle, and the emitted triangles are proper and
/// index only existing vertices.
#[verifier::rlimit(100)]
proof fn lemma_subdiv_upto_inv(rules0: Seq<VertexRule>, faces: Seq<Tri>, k: int)
    requires
        0 <= k <= faces.len(),
        tris_in_bounds(faces, rules0.len() as int),
        tris_proper(faces),
        rules0.len() + 3 * faces.len() <= usize::MAX,
    ensures
        ({
            let s = subdiv_upto(rules0, faces, k);
            &&& cache_inv(rules0.len() as int, s.0, s.1)
            &&& cache_keys(s.1) == edge_set_upto(faces, k)
            &&& edge_set_upto(faces, k).finite()
            &&& edge_set_upto(faces, k).len() == s.1.len()
            &&& s.1.len() <= 3 * k
            &&& s.0.len() == rules0.len() + edge_set_upto(faces, k).len()
            &&& s.2.len() == 4 * k
            &&& tris_in_bounds(s.2, s.0.len() as int)
            &&& tris_proper(s.2)
        }),
    decreases k,
{
    broadcast use vstd::set::axiom_set_insert_len, vstd::set::axiom_set_insert_finite;

    if k == 0 {
        assert(cache_keys(Seq::<CacheEntry>::empty()) =~= Set::<(usize, usize)>::empty());
    } else {
        lemma_subdiv_upto_inv(rules0, faces, k - 1);
        let base = rules0.len() as int;
        let prev = subdiv_upto(rules0, faces, k - 1);
        let t = faces[k - 1];
        assert(tri_proper(t) && tri_in_bounds(t, base));
        lemma_tri_edges_distinct(t);
        let e1 = edge_of(t.a, t.b);
        let e2 = edge_of(t.b, t.c);
        let e3 = edge_of(t.c, t.a);

        let s1 = mid_step(prev.0, prev.1, t.a, t.b);
        lemma_mid_step(base, prev.0, prev.1, t.a, t.b);
        let s2 = mid_step(s1.0, s1.1, t.b, t.c);
        lemma_mid_step(base, s1.0, s1.1, t.b, t.c);
        let s3 = mid_step(s2.0, s2.1, t.c, t.a);
        lemma_mid_step(base, s2.0, s2.1, t.c, t.a);
        let ab = s1.2;
        let bc = s2.2;
        let ca = s3.2;

        // the cache after the step holds exactly the edges seen so far
        assert(cache_keys(s3.1) =~= edge_set_upto(faces, k));
        lemma_cache_keys_len(s3.1);

        // the three midpoint indices name three distinct cache entries
        let i1 = choose|i: int|
            0 <= i < s1.1.len() && #[trigger] s1.1[i] == (CacheEntry {
                lo: e1.0,
                hi: e1.1,
                idx: ab,
            });
        let i2 = choose|i: int|
            0 <= i < s2.1.len() && #[trigger] s2.1[i] == (CacheEntry {
                lo: e2.0,
                hi: e2.1,
                idx: bc,
            });
        let i3 = choose|i: int|
            0 <= i < s3.1.len() && #[trigger] s3.1[i] == (CacheEntry {
                lo: e3.0,
                hi: e3.1,
                idx: ca,
            });
        lemma_cache_prefix_trans(prev.1, s1.1, s2.1);
        lemma_cache_prefix_trans(s1.1, s2.1, s3.1);
        assert(s3.1[i1] == s1.1[i1] && s3.1[i2] == s2.1[i2]);
        assert(ab != bc) by {
            if i1 == i2 {
                assert(entry_key(s3.1[i1]) == e1 && entry_key(s3.1[i2]) == e2);
            }
        }
        assert(bc != ca) by {
            if i2 == i3 {
                assert(entry_key(s3.1[i2]) == e2 && entry_key(s3.1[i3]) == e3);
            }
        }
        assert(ab != ca) by {
            if i1 == i3 {
                assert(entry_key(s3.1[i1]) == e1 && entry_key(s3.1[i3]) == e3);
            }
        }

        // the four emitted triangles are proper and in bounds
        let s = subdiv_upto(rules0, faces, k);
        assert(s.2 == prev.2 + seq![
            Tri { a: t.a, b: ab, c: ca },
            Tri { a: t.b, b: bc, c: ab },
            Tri { a: t.c, b: ca, c: bc },
            Tri { a: ab, b: bc, c: ca },
        ]);
        assert forall|i: int| 0 <= i < s.2.len() implies tri_in_bounds(
            #[trigger] s.2[i],
            s.0.len() as int,
        ) && tri_proper(s.2[i]) by {
            if i < prev.2.len() {
                assert(s.2[i] == prev.2[i]);
                assert(tri_in_bounds(prev.2[i], prev.0.len() as int));
            } else {
                assert(base <= ab < s.0.len() && base <= bc < s.0.len() && base <= ca
                    < s.0.len());
                assert(t.a < base && t.b < base && t.c < base);
            }
        }
    }
}

/// Law: one subdivision pass grows the vertex list by exactly the number of
/// distinct undirected edges of the triangle list, and replaces every
/// triangle by four. In particular the vertex count strictly increases
/// whenever there is at least one triangle.
pub proof fn lemma_subdivision_counts(rules: Seq<VertexRule>, faces: Seq<Tri>)
    requires
        tris_in_bounds(faces, rules.len() as int),
        tris_proper(faces),
        rules.len() + 3 * faces.len() <= usize::MAX,
    ensures
        subdivide_model(rules, faces).0.len() == rules.len() + edge_set(faces).len(),
        subdivide_model(rules, faces).1.len() == 4 * faces.len(),
        faces.len() > 0 ==> subdivide_model(rules, faces).0.len() > rules.len(),
{
    lemma_subdiv_upto_inv(rules, faces, faces.len() as int);
    if faces.len() > 0 {
        lemma_edge_set_upto_contains(faces, faces.len() as int, 0);
        if edge_set(faces).len() == 0 {
            edge_set(faces).lemma_len0_is_empty();
        }
    }
}

/// Law: one subdivision pass of a proper, in-bounds mesh yields a proper
/// mesh whose triangles index only the grown vertex list.
pub proof fn lemma_subdivision_wf(rules: Seq<VertexRule>, faces: Seq<Tri>)
    requires
        tris_in_bounds(faces, rules.len() as int),
        tris_proper(faces),
        rules.len() + 3 * faces.len() <= usize::MAX,
    ensures
        tris_in_bounds(subdivide_model(rules, faces).1, subdivide_model(rules, faces).0.len() as int),
        tris_proper(subdivide_model(rules, faces).1),
        rules.len() <= subdivide_model(rules, faces).0.len() <= rules.len() + 3 * faces.len(),
{
    lemma_subdiv_upto_inv(rules, faces, faces.len() as int);
}

/// The icosahedron triangle list is proper and indexes only the 12 seeds.
pub proof fn lemma_ico_wf()
    ensures
        tris_in_bounds(ico_tris(), ico_rules().len() as int),
        tris_proper(ico_tris()),
{
    assert forall|i: int| 0 <= i < ico_tris().len() implies tri_in_bounds(
        #[trigger] ico_tris()[i],
        ico_rules().len() as int,
    ) && tri_proper(ico_tris()[i]) by {
        assert(ico_tris()[i].a < 12 && ico_tris()[i].b < 12 && ico_tris()[i].c < 12);
        assert(tri_proper(ico_tris()[i]));
    }
}

/// The sphere meshes used by the flattener (subdivision levels up to the
/// default of 2) are proper, index only their own vertices, and stay small.
pub proof fn lemma_sphere_model_wf(level: int)
    requires
        0 <= level <= 2,
    ensures
        tris_in_bounds(sphere_model(level).1, sphere_model(level).0.len() as int),
        tris_proper(sphere_model(level).1),
        12 <= sphere_model(level).0.len(),
        level == 0 ==> sphere_model(level).0.len() == 12,
        level == 1 ==> sphere_model(level).0.len() <= 72,
        level == 2 ==> sphere_model(level).0.len() <= 312,
        sphere_model(level).1.len() == 20 * (if level == 0 {
            1int
        } else if level == 1 {
            4int
        } else {
            16int
        }),
    decreases level,
{
    lemma_ico_wf();
    if level > 0 {
        lemma_sphere_model_wf(level - 1);
        let prev = sphere_model(level - 1);
        lemma_subdivision_counts(prev.0, prev.1);
        lemma_subdivision_wf(prev.0, prev.1);
        lemma_subdiv_upto_inv(prev.0, prev.1, prev.1.len() as int);
        let cur = sphere_model(level);
        assert(cur.0.len() == prev.0.len() + edge_set(prev.1).len());
        assert(edge_set(prev.1).len() <= 3 * prev.1.len());
    }
}

/// Looks up the normalized pair `(lo, hi)` in the cache.
fn cache_lookup(cache: &Vec<CacheEntry>, lo: usize, hi: usize) -> (r: Option<usize>)
    ensures
        r == cache_find(cache@, lo, hi),
{
    let mut i: usize = 0;
    proof {
        assert(cache@.subrange(0, cache@.len() as int) =~= cache@);
    }
    while i < cache.len()
        invariant
            i <= cache@.len(),
            cache_find(cache@, lo, hi) == cache_find(
                cache@.subrange(i as int, cache@.len() as int),
                lo,
                hi,
            ),
        decreases cache@.len() - i,
    {
        let e = cache[i];
        proof {
            assert(cache@.subrange(i as int, cache@.len() as int)[0] == cache@[i as int]);
        }
        if e.lo == lo && e.hi == hi {
            return Some(e.idx);
        }
        proof {
            assert(cache@.subrange(i as int, cache@.len() as int).drop_first() =~= cache@.subrange(
                i as int + 1,
                cache@.len() as int,
            ));
        }
        i = i + 1;
    }
    proof {
        assert(cache@.subrange(cache@.len() as int, cache@.len() as int) =~= Seq::<
            CacheEntry,
        >::empty());
    }
    None
}

/// Returns the index of the midpoint vertex of the undirected edge `{a, b}`,
/// generating a fresh `Midpoint` vertex on the first request for that edge
/// and answering every later request for it, in either order, from the cache.
pub fn get_midpoint(
    rules: &mut Vec<VertexRule>,
    cache: &mut Vec<CacheEntry>,
    a: usize,
    b: usize,
) -> (idx: usize)
    ensures
        final(rules)@ == mid_step(old(rules)@, old(cache)@, a, b).0,
        final(cache)@ == mid_step(old(rules)@, old(cache)@, a, b).1,
        idx == mid_step(old(rules)@, old(cache)@, a, b).2,
{
    let lo = if a < b {
        a
    } else {
        b
    };
    let hi = if a < b {
        b
    } else {
        a
    };
    match cache_lookup(cache, lo, hi) {
        Some(i) => i,
        None => {
            let idx = rules.len();
            rules.push(VertexRule::Midpoint { a: lo, b: hi });
            cache.push(CacheEntry { lo, hi, idx });
            idx
        },
    }
}

/// One subdivision pass: replaces every triangle of `faces` by four, adding
/// one midpoint vertex per distinct undirected edge to `rules`.
pub fn subdivide(rules: &mut Vec<VertexRule>, faces: &Vec<Tri>) -> (out: Vec<Tri>)
    ensures
        final(rules)@ == subdivide_model(old(rules)@, faces@).0,
        out@ == subdivide_model(old(rules)@, faces@).1,
{
    let mut cache: Vec<CacheEntry> = Vec::new();
    let mut out: Vec<Tri> = Vec::new();
    let mut k: usize = 0;
    while k < faces.len()
        invariant
            k <= faces@.len(),
            rules@ == subdiv_upto(old(rules)@, faces@, k as int).0,
            cache@ == subdiv_upto(old(rules)@, faces@, k as int).1,
            out@ == subdiv_upto(old(rules)@, faces@, k as int).2,
        decreases faces@.len() - k,
    {
        let t = faces[k];
        let ab = get_midpoint(rules, &mut cache, t.a, t.b);
        let bc = get_midpoint(rules, &mut cache, t.b, t.c);
        let ca = get_midpoint(rules, &mut cache, t.c, t.a);
        out.push(Tri { a: t.a, b: ab, c: ca });
        out.push(Tri { a: t.b, b: bc, c: ab });
        out.push(Tri { a: t.c, b: ca, c: bc });
        out.push(Tri { a: ab, b: bc, c: ca });
        proof {
            let st = subdiv_upto(old(rules)@, faces@, k as int + 1);
            assert(out@ =~= st.2);
        }
        k = k + 1;
    }
    out
}

/// Builds the unit-sphere approximation at the given subdivision level:
/// 12 icosahedron seeds, then `subdivisions` midpoint-cached passes.
pub fn sphere_mesh(subdivisions: usize) -> (r: (Vec<VertexRule>, Vec<Tri>))
    ensures
        r.0@ == sphere_model(subdivisions as int).0,
        r.1@ == sphere_model(subdivisions as int).1,
{
    let mut rules: Vec<VertexRule> = Vec::new();
    let mut s: usize = 0;
    while s < 12
        invariant
            s <= 12,
            rules@.len() == s,
            forall|j: int| 0 <= j < s ==> rules@[j] == (VertexRule::Seed { index: j as usize }),
        decreases 12 - s,
    {
        rules.push(VertexRule::Seed { index: s });
        s = s + 1;
    }
    let mut faces: Vec<Tri> = vec![
        Tri { a: 0, b: 11, c: 5 },
        Tri { a: 0, b: 5, c: 1 },
        Tri { a: 0, b: 1, c: 7 },
        Tri { a: 0, b: 7, c: 10 },
        Tri { a: 0, b: 10, c: 11 },
        Tri { a: 1, b: 5, c: 9 },
        Tri { a: 5, b: 11, c: 4 },
        Tri { a: 11, b: 10, c: 2 },
        Tri { a: 10, b: 7, c: 6 },
        Tri { a: 7, b: 1, c: 8 },
        Tri { a: 3, b: 9, c: 4 },
        Tri { a: 3, b: 4, c: 2 },
        Tri { a: 3, b: 2, c: 6 },
        Tri { a: 3, b: 6, c: 8 },
        Tri { a: 3, b: 8, c: 9 },
        Tri { a: 4, b: 9, c: 5 },
        Tri { a: 2, b: 4, c: 11 },
        Tri { a: 6, b: 2, c: 10 },
        Tri { a: 8, b: 6, c: 7 },
        Tri { a: 9, b: 8, c: 1 },
    ];
    proof {
        assert(rules@ =~= ico_rules());
        assert(faces@ =~= ico_tris());
    }
    let mut l: usize = 0;
    while l < subdivisions
        invariant
            l <= subdivisions,
            rules@ == sphere_model(l as int).0,
            faces@ == sphere_model(l as int).1,
        decreases subdivisions - l,
    {
        let nf = subdivide(&mut rules, &faces);
        faces = nf;
        l = l + 1;
    }
    (rules, faces)
}

} // verus!
