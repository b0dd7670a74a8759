use vstd::prelude::*;

use crate::index::{Index, SENTINEL, index_to_option};
use vstd::arithmetic::div_mod::{lemma_small_mod, lemma_mod_self_0, lemma_mod_add_multiples_vanish, lemma_add_mod_noop, lemma_mod_bound};

verus! {

/// Why a topology-building operation was rejected.
#[derive(Clone, Copy, Debug, PartialEq, Eq, Structural)]
pub enum MeshError {
    /// An operation was handed a slot index that does not identify a live
    /// element of the mesh.
    InvalidReference,
}

/*
 * Vertex records
 */

/// One vertex record: the entry edge of its adjacency ring (the sentinel when
/// the vertex is isolated) and the caller-supplied payload.
#[derive(Clone)]
struct VertexInfo<V> {
    base_edge_index: Index,
    data: V,
}

impl<V> VertexInfo<V> {
    /// The stored ring entry point, as a raw index.
    pub closed spec fn spec_base_edge(self) -> int {
        self.base_edge_index as int
    }

    /// The stored payload.
    pub closed spec fn spec_data(self) -> V {
        self.data
    }

    /// Creates an isolated vertex record carrying `data`.
    pub fn new(data: V) -> (r: Self)
        ensures
            r.spec_base_edge() == SENTINEL as int,
            r.spec_data() == data,
    {
        VertexInfo { base_edge_index: SENTINEL, data }
    }
}

/*
 * Edge records
 */

/// One directed side of an edge: the endpoint vertex it is tied to, the
/// adjoining face, and the next (clockwise) and previous (counter-clockwise)
/// edges around that vertex. All fields but `vertex_index` are optional, with
/// the sentinel standing for "absent".
#[derive(Clone, Copy)]
struct HalfEdgeInfo {
    vertex_index: Index,
    next_face_index: Index,
    next_edge_index: Index,
    prev_edge_index: Index,
}

impl HalfEdgeInfo {
    /// Creates a half-edge with every reference absent.
    fn new() -> (r: Self)
        ensures
            r == (HalfEdgeInfo {
                vertex_index: SENTINEL,
                next_face_index: SENTINEL,
                next_edge_index: SENTINEL,
                prev_edge_index: SENTINEL,
            }),
    {
        HalfEdgeInfo {
            vertex_index: SENTINEL,
            next_face_index: SENTINEL,
            next_edge_index: SENTINEL,
            prev_edge_index: SENTINEL,
        }
    }
}

/// One edge record: two inline half-edges, one per endpoint, and the
/// caller-supplied payload. Operations pick "the half-edge for vertex v" by
/// matching `vertex_index`, side 0 taking precedence for self-loops.
#[derive(Clone)]
struct EdgeInfo<E> {
    half_edge0: HalfEdgeInfo,
    half_edge1: HalfEdgeInfo,
    data: E,
}

impl<E> EdgeInfo<E> {
    /// Whether one of the two half-edges is tied to vertex `v`.
    spec fn has_vertex(self, v: int) -> bool {
        self.half_edge0.vertex_index as int == v || self.half_edge1.vertex_index as int == v
    }

    /// The half-edge tied to vertex `v`, side 0 taking precedence.
    spec fn he_for(self, v: int) -> HalfEdgeInfo {
        if self.half_edge0.vertex_index as int == v {
            self.half_edge0
        } else {
            self.half_edge1
        }
    }

    /// Creates an edge record carrying `data`, with both half-edges blank.
    fn new(data: E) -> (r: Self)
        ensures
            r.half_edge0 == HalfEdgeInfo::spec_blank(),
            r.half_edge1 == HalfEdgeInfo::spec_blank(),
            r.data == data,
    {
        EdgeInfo { half_edge0: HalfEdgeInfo::new(), half_edge1: HalfEdgeInfo::new(), data }
    }

    /// The next edge clockwise around `base_vertex_index`, as stored on this
    /// edge's half-edge for that vertex.
    fn next_edge_index_for_vertex(&self, base_vertex_index: Index) -> (r: Index)
        requires
            self.has_vertex(base_vertex_index as int),
        ensures
            r == self.he_for(base_vertex_index as int).next_edge_index,
    {
        if self.half_edge0.vertex_index == base_vertex_index {
            self.half_edge0.next_edge_index
        } else {
            self.half_edge1.next_edge_index
        }
    }

    /// The previous edge counter-clockwise around `base_vertex_index`, as
    /// stored on this edge's half-edge for that vertex.
    fn previous_edge_index_for_vertex(&self, base_vertex_index: Index) -> (r: Index)
        requires
            self.has_vertex(base_vertex_index as int),
        ensures
            r == self.he_for(base_vertex_index as int).prev_edge_index,
    {
        if self.half_edge0.vertex_index == base_vertex_index {
            self.half_edge0.prev_edge_index
        } else {
            self.half_edge1.prev_edge_index
        }
    }

    /// This record with the next link of its half-edge for `v` set to `x`.
    spec fn with_next_for(self, v: int, x: Index) -> EdgeInfo<E> {
        if self.half_edge0.vertex_index as int == v {
            EdgeInfo {
                half_edge0: HalfEdgeInfo { next_edge_index: x, ..self.half_edge0 },
                ..self
            }
        } else {
            EdgeInfo {
                half_edge1: HalfEdgeInfo { next_edge_index: x, ..self.half_edge1 },
                ..self
            }
        }
    }

    /// This record with the prev link of its half-edge for `v` set to `x`.
    spec fn with_prev_for(self, v: int, x: Index) -> EdgeInfo<E> {
        if self.half_edge0.vertex_index as int == v {
            EdgeInfo {
                half_edge0: HalfEdgeInfo { prev_edge_index: x, ..self.half_edge0 },
                ..self
            }
        } else {
            EdgeInfo {
                half_edge1: HalfEdgeInfo { prev_edge_index: x, ..self.half_edge1 },
                ..self
            }
        }
    }

    /// A view of the half-edge tied to vertex `v`.
    fn half_edge_for_vertex(&self, v: Index) -> (r: &HalfEdgeInfo)
        requires
            self.has_vertex(v as int),
        ensures
            *r == self.he_for(v as int),
    {
        if self.half_edge0.vertex_index == v {
            &self.half_edge0
        } else {
            &self.half_edge1
        }
    }
}

impl HalfEdgeInfo {
    /// A half-edge with every reference absent.
    spec fn spec_blank() -> HalfEdgeInfo {
        HalfEdgeInfo {
            vertex_index: SENTINEL,
            next_face_index: SENTINEL,
            next_edge_index: SENTINEL,
            prev_edge_index: SENTINEL,
        }
    }
}

/*
 * Face records
 */

/// One face record: an edge on the face's boundary and the caller-supplied
/// payload.
#[derive(Clone)]
struct FaceInfo<F> {
    base_edge_index: Index,
    data: F,
}

/*
 * Mesh
 */

/// A half-edge mesh: three parallel arenas of vertex, edge and face records.
/// Array position is an element's stable identity; indices are assigned in
/// creation order and never reused.
#[derive(Clone)]
pub struct Mesh<V, E, F> {
    verts: Vec<VertexInfo<V>>,
    edges: Vec<EdgeInfo<E>>,
    faces: Vec<FaceInfo<F>>,
}

impl<V, E, F> Mesh<V, E, F> {
    /*
     * Mathematical model
     */

    /// Number of vertex records in the arena.
    pub closed spec fn vertex_count(self) -> int {
        self.verts.len() as int
    }

    /// Number of edge records in the arena.
    pub closed spec fn edge_count(self) -> int {
        self.edges.len() as int
    }

    /// Number of face records in the arena.
    pub closed spec fn face_count(self) -> int {
        self.faces.len() as int
    }

    /// Whether `v` identifies a live vertex.
    pub open spec fn valid_vertex(self, v: int) -> bool {
        0 <= v < self.vertex_count()
    }

    /// Whether `e` identifies a live edge.
    pub open spec fn valid_edge(self, e: int) -> bool {
        0 <= e < self.edge_count()
    }

    /// Whether `f` identifies a live face.
    pub open spec fn valid_face(self, f: int) -> bool {
        0 <= f < self.face_count()
    }

    /// The payload of vertex `v`.
    pub closed spec fn vertex_payload(self, v: int) -> V {
        self.verts@[v].data
    }

    /// The payload of edge `e`.
    pub closed spec fn edge_payload(self, e: int) -> E {
        self.edges@[e].data
    }

    /// The payload of face `f`.
    pub closed spec fn face_payload(self, f: int) -> F {
        self.faces@[f].data
    }

    /// The endpoint vertex of edge `e` on side `side` (0 or 1).
    pub closed spec fn edge_vertex(self, e: int, side: int) -> int {
        if side == 0 {
            self.edges@[e].half_edge0.vertex_index as int
        } else {
            self.edges@[e].half_edge1.vertex_index as int
        }
    }

    /// The face reference stored on side `side` of edge `e` (the sentinel
    /// while face linkage has not been populated).
    pub closed spec fn edge_face(self, e: int, side: int) -> int {
        if side == 0 {
            self.edges@[e].half_edge0.next_face_index as int
        } else {
            self.edges@[e].half_edge1.next_face_index as int
        }
    }

    /// Whether edge `e` has vertex `v` as an endpoint.
    pub open spec fn is_incident(self, e: int, v: int) -> bool {
        self.edge_vertex(e, 0) == v || self.edge_vertex(e, 1) == v
    }

    /// The next edge clockwise around `v` after `e`, as stored on `e`'s
    /// half-edge for `v`.
    pub closed spec fn next_in_ring(self, e: int, v: int) -> int {
        self.edges@[e].he_for(v).next_edge_index as int
    }

    /// The previous edge counter-clockwise around `v` before `e`, as stored
    /// on `e`'s half-edge for `v`.
    pub closed spec fn prev_in_ring(self, e: int, v: int) -> int {
        self.edges@[e].he_for(v).prev_edge_index as int
    }

    /// The face reference stored on `e`'s half-edge for `v`.
    pub closed spec fn face_link(self, e: int, v: int) -> int {
        self.edges@[e].he_for(v).next_face_index as int
    }

    /// The stored ring entry point of vertex `v`, as a raw index (the
    /// sentinel for an isolated vertex).
    pub closed spec fn base_edge(self, v: int) -> int {
        self.verts@[v].base_edge_index as int
    }

    /// The boundary entry edge stored on face `f`.
    pub closed spec fn face_base_edge(self, f: int) -> int {
        self.faces@[f].base_edge_index as int
    }

    /// The edges incident to `v` among edges `0 .. n`, in creation order.
    closed spec fn ring_up_to(self, v: int, n: int) -> Seq<int>
        decreases n,
    {
        if n <= 0 {
            Seq::empty()
        } else if self.is_incident(n - 1, v) {
            self.ring_up_to(v, n - 1).push(n - 1)
        } else {
            self.ring_up_to(v, n - 1)
        }
    }

    /// The adjacency ring of vertex `v`: every edge incident to `v`, exactly
    /// once, in creation order. The stored links walk this sequence
    /// circularly, starting at the vertex's base edge.
    pub closed spec fn ring(self, v: int) -> Seq<int> {
        self.ring_up_to(v, self.edge_count())
    }

    /// The stored links of vertex `v` realize its ring: the base edge is the
    /// ring's first element (the sentinel exactly when the ring is empty) and
    /// the next/prev links of each member point to its circular neighbours.
    closed spec fn ring_ok(self, v: int) -> bool {
        let r = self.ring(v);
        &&& (self.base_edge(v) == SENTINEL as int <==> r.len() == 0)
        &&& (r.len() > 0 ==> self.base_edge(v) == r[0])
        &&& (forall|i: int|
            0 <= i < r.len() ==> #[trigger] self.next_in_ring(r[i], v) == r[(i + 1) % (
            r.len() as int)])
        &&& (forall|i: int|
            0 <= i < r.len() ==> #[trigger] self.prev_in_ring(r[i], v) == r[(i - 1 + r.len()) % (
            r.len() as int)])
    }

    /// Well-formedness: the arenas stay below the sentinel bound, every
    /// stored endpoint and face entry edge is a valid index, and every
    /// vertex's stored adjacency links close into the ring of its incident
    /// edges.
    pub closed spec fn wf(self) -> bool {
        &&& self.vertex_count() <= SENTINEL as int
        &&& self.edge_count() <= SENTINEL as int
        &&& self.face_count() <= SENTINEL as int
        &&& (forall|e: int|
            self.valid_edge(e) ==> self.valid_vertex(#[trigger] self.edge_vertex(e, 0))
                && self.valid_vertex(self.edge_vertex(e, 1)))
        &&& (forall|f: int| self.valid_face(f) ==> self.valid_edge(#[trigger] self.face_base_edge(f)))
        &&& (forall|v: int| self.valid_vertex(v) ==> #[trigger] self.ring_ok(v))
    }

    /*
     * Ring lemmas
     */

    /// Every member of `ring_up_to(v, n)` is an edge index below `n` incident
    /// to `v`; members appear in increasing order; and an edge below `n`
    /// appears in the sequence exactly when it is incident to `v`.
    proof fn lemma_ring_up_to_props(self, v: int, n: int)
        ensures
            forall|i: int|
                0 <= i < self.ring_up_to(v, n).len() ==> 0 <= #[trigger] self.ring_up_to(v, n)[i]
                    < n && self.is_incident(self.ring_up_to(v, n)[i], v),
            forall|i: int, j: int|
                0 <= i < j < self.ring_up_to(v, n).len() ==> #[trigger] self.ring_up_to(v, n)[i]
                    < #[trigger] self.ring_up_to(v, n)[j],
            forall|e: int|
                #![trigger self.ring_up_to(v, n).contains(e)]
                #![trigger self.is_incident(e, v)]
                self.ring_up_to(v, n).contains(e) <==> (0 <= e < n && self.is_incident(e, v)),
        decreases n,
    {
        if n > 0 {
            self.lemma_ring_up_to_props(v, n - 1);
            let prev = self.ring_up_to(v, n - 1);
            let cur = self.ring_up_to(v, n);
            assert forall|e: int| #[trigger]
                cur.contains(e) implies (0 <= e < n && self.is_incident(e, v)) by {
                let i = choose|i: int| 0 <= i < cur.len() && cur[i] == e;
                if i < prev.len() {
                    assert(prev.contains(e));
                }
            }
            assert forall|e: int|
                0 <= e < n && #[trigger] self.is_incident(e, v) implies cur.contains(e) by {
                if e < n - 1 {
                    assert(prev.contains(e));
                    let i = choose|i: int| 0 <= i < prev.len() && prev[i] == e;
                    assert(cur[i] == e);
                } else {
                    assert(cur[cur.len() - 1] == e);
                }
            }
        }
    }

    /// `ring_up_to` depends only on which edges below `n` are incident to
    /// `v`: two meshes that agree on that agree on the sequence.
    proof fn lemma_ring_up_to_stable(self, other: Self, v: int, n: int)
        requires
            forall|e: int| 0 <= e < n ==> #[trigger] other.is_incident(e, v) == self.is_incident(e, v),
        ensures
            other.ring_up_to(v, n) == self.ring_up_to(v, n),
        decreases n,
    {
        if n > 0 {
            self.lemma_ring_up_to_stable(other, v, n - 1);
        }
    }

    /*
     * Construction and queries
     */

    /// Creates an empty mesh.
    pub fn new() -> (r: Mesh<V, E, F>)
        ensures
            r.wf(),
            r.vertex_count() == 0,
            r.edge_count() == 0,
            r.face_count() == 0,
    {
        Mesh { verts: Vec::new(), edges: Vec::new(), faces: Vec::new() }
    }

    /// Whether `index` identifies a live vertex.
    pub fn is_valid_vertex_index(&self, index: Index) -> (r: bool)
        ensures
            r == (index < SENTINEL && (index as int) < self.vertex_count()),
            self.wf() ==> r == self.valid_vertex(index as int),
    {
        index < SENTINEL && (index as usize) < self.verts.len()
    }

    /// Whether `index` identifies a live vertex (shorthand name).
    pub fn is_valid_vert_index(&self, index: Index) -> (r: bool)
        ensures
            r == (index < SENTINEL && (index as int) < self.vertex_count()),
            self.wf() ==> r == self.valid_vertex(index as int),
    {
        self.is_valid_vertex_index(index)
    }

    /// Whether `index` identifies a live edge.
    pub fn is_valid_edge_index(&self, index: Index) -> (r: bool)
        ensures
            r == (index < SENTINEL && (index as int) < self.edge_count()),
            self.wf() ==> r == self.valid_edge(index as int),
    {
        index < SENTINEL && (index as usize) < self.edges.len()
    }

    /// Whether `index` identifies a live face.
    pub fn is_valid_face_index(&self, index: Index) -> (r: bool)
        ensures
            r == (index < SENTINEL && (index as int) < self.face_count()),
            self.wf() ==> r == self.valid_face(index as int),
    {
        index < SENTINEL && (index as usize) < self.faces.len()
    }

    /// Appends an isolated vertex carrying `v` and returns its index.
    /// Vertices are numbered in creation order: the first call returns 0, the
    /// next 1, and so on.
    pub fn add_vertex(&mut self, v: V) -> (idx: Index)
        requires
            old(self).wf(),
            old(self).vertex_count() < SENTINEL as int,
        ensures
            final(self).wf(),
            idx as int == old(self).vertex_count(),
            final(self).vertex_count() == old(self).vertex_count() + 1,
            final(self).edge_count() == old(self).edge_count(),
            final(self).face_count() == old(self).face_count(),
            final(self).vertex_payload(idx as int) == v,
            final(self).base_edge(idx as int) == SENTINEL as int,
            final(self).ring(idx as int) == Seq::<int>::empty(),
            forall|u: int|
                old(self).valid_vertex(u) ==> #[trigger] final(self).vertex_payload(u) == old(
                    self,
                ).vertex_payload(u) && final(self).base_edge(u) == old(self).base_edge(u),
            forall|u: int| #[trigger] final(self).ring(u) == old(self).ring(u),
            forall|e: int, side: int|
                old(self).valid_edge(e) ==> #[trigger] final(self).edge_vertex(e, side) == old(
                    self,
                ).edge_vertex(e, side) && #[trigger] final(self).edge_face(e, side) == old(
                    self,
                ).edge_face(e, side),
            forall|e: int|
                old(self).valid_edge(e) ==> #[trigger] final(self).edge_payload(e) == old(
                    self,
                ).edge_payload(e),
            forall|f: int|
                old(self).valid_face(f) ==> #[trigger] final(self).face_payload(f) == old(
                    self,
                ).face_payload(f) && #[trigger] final(self).face_base_edge(f) == old(
                    self,
                ).face_base_edge(f),
    {
        let index: Index = self.verts.len() as u32;
        self.verts.push(VertexInfo::new(v));
        proof {
            let m0 = *old(self);
            let m1 = *self;
            assert(m1.edges@ == m0.edges@);
            assert forall|e: int, side: int| #[trigger] m1.edge_vertex(e, side) == m0.edge_vertex(
                e,
                side,
            ) by {}
            assert forall|f: int| #[trigger] m1.face_base_edge(f) == m0.face_base_edge(f) by {}
            assert forall|u: int| #[trigger] m1.ring(u) == m0.ring(u) by {
                m0.lemma_ring_up_to_stable(m1, u, m0.edge_count());
            }
            assert(m1.ring(index as int) =~= Seq::<int>::empty()) by {
                m0.lemma_ring_up_to_props(index as int, m0.edge_count());
                let r = m0.ring(index as int);
                if r.len() > 0 {
                    let e = r[0];
                    assert(m0.valid_edge(e) && m0.is_incident(e, index as int));
                    assert(m0.valid_vertex(m0.edge_vertex(e, 0)));
                    assert(false);
                }
            }
            assert forall|u: int| m1.valid_vertex(u) implies #[trigger] m1.ring_ok(u) by {
                if u == index as int {
                    assert(m1.base_edge(u) == SENTINEL as int);
                    assert(m1.ring(u).len() == 0);
                } else {
                    assert(m0.ring_ok(u));
                    assert(m1.verts@[u] == m0.verts@[u]);
                    assert forall|e: int| m0.ring(u).contains(e) implies #[trigger] m1.next_in_ring(
                        e,
                        u,
                    ) == m0.next_in_ring(e, u) && #[trigger] m1.prev_in_ring(e, u)
                        == m0.prev_in_ring(e, u) by {}
                    m0.lemma_ring_ok_transfer(m1, u);
                }
            }
        }
        index
    }

    /// Two meshes whose ring of `v` is the same sequence, with the same base
    /// edge and the same links on every member, realize the ring equally well.
    proof fn lemma_ring_ok_transfer(self, other: Self, v: int)
        requires
            self.ring_ok(v),
            other.ring(v) == self.ring(v),
            other.base_edge(v) == self.base_edge(v),
            forall|e: int|
                self.ring(v).contains(e) ==> #[trigger] other.next_in_ring(e, v)
                    == self.next_in_ring(e, v),
            forall|e: int|
                self.ring(v).contains(e) ==> #[trigger] other.prev_in_ring(e, v)
                    == self.prev_in_ring(e, v),
        ensures
            other.ring_ok(v),
    {
        let r = self.ring(v);
        assert forall|i: int|
            0 <= i < r.len() implies #[trigger] other.next_in_ring(r[i], v) == r[(i + 1) % (
        r.len() as int)] && #[trigger] other.prev_in_ring(r[i], v) == r[(i - 1 + r.len()) % (
        r.len() as int)] by {
            assert(r.contains(r[i]));
            assert(self.next_in_ring(r[i], v) == r[(i + 1) % (r.len() as int)]);
            assert(self.prev_in_ring(r[i], v) == r[(i - 1 + r.len()) % (r.len() as int)]);
        }
    }

    /// After the links of `v`'s ring have been rewritten to append the new
    /// edge `n` as the ring's last element, the links realize the extended
    /// ring.
    proof fn lemma_spliced_ring_ok(self, other: Self, v: int, n: int)
        requires
            n == self.edge_count(),
            0 <= n < SENTINEL as int,
            other.edge_count() == n + 1,
            self.ring_ok(v),
            other.is_incident(n, v),
            forall|e: int| 0 <= e < n ==> #[trigger] other.is_incident(e, v) == self.is_incident(e, v),
            self.ring(v).len() == 0 ==> other.base_edge(v) == n && other.next_in_ring(n, v) == n
                && other.prev_in_ring(n, v) == n,
            self.ring(v).len() > 0 ==> ({
                let r = self.ring(v);
                let k = r.len() as int;
                &&& other.base_edge(v) == self.base_edge(v)
                &&& other.next_in_ring(n, v) == r[0]
                &&& other.prev_in_ring(n, v) == r[k - 1]
                &&& other.next_in_ring(r[k - 1], v) == n
                &&& other.prev_in_ring(r[0], v) == n
                &&& (forall|i: int|
                    0 <= i < k - 1 ==> #[trigger] other.next_in_ring(r[i], v) == self.next_in_ring(
                        r[i],
                        v,
                    ))
                &&& (forall|i: int|
                    1 <= i < k ==> #[trigger] other.prev_in_ring(r[i], v) == self.prev_in_ring(
                        r[i],
                        v,
                    ))
            }),
        ensures
            other.ring_ok(v),
            other.ring(v) == self.ring(v).push(n),
    {
        self.lemma_ring_up_to_stable(other, v, n);
        self.lemma_ring_up_to_props(v, n);
        assert(other.ring(v) == self.ring(v).push(n));
        let r0 = self.ring(v);
        let k = r0.len() as int;
        let r = other.ring(v);
        let len = r.len() as int;
        assert(len == k + 1);
        assert forall|i: int|
            0 <= i < len implies #[trigger] other.next_in_ring(r[i], v) == r[(i + 1) % len] by {
            if i + 1 < len {
                lemma_small_mod((i + 1) as nat, len as nat);
            } else {
                lemma_mod_self_0(len);
            }
            if i < k - 1 {
                assert(other.next_in_ring(r0[i], v) == self.next_in_ring(r0[i], v));
                assert(self.next_in_ring(r0[i], v) == r0[(i + 1) % (k as int)]);
                lemma_small_mod((i + 1) as nat, k as nat);
            } else if i == k - 1 {
                assert(other.next_in_ring(r0[k - 1], v) == n);
            } else {
                assert(i == k);
                assert(r[i] == n);
                if k == 0 {
                    assert(other.next_in_ring(n, v) == n);
                } else {
                    assert(other.next_in_ring(n, v) == r0[0]);
                }
            }
        }
        assert forall|i: int|
            0 <= i < len implies #[trigger] other.prev_in_ring(r[i], v) == r[(i - 1 + len) % len] by {
            if i == 0 {
                lemma_small_mod((len - 1) as nat, len as nat);
                if k == 0 {
                    assert(other.prev_in_ring(n, v) == n);
                } else {
                    assert(other.prev_in_ring(r0[0], v) == n);
                }
            } else {
                lemma_mod_add_multiples_vanish(i - 1, len);
                lemma_small_mod((i - 1) as nat, len as nat);
                if i == k {
                    assert(r[i] == n);
                    assert(other.prev_in_ring(n, v) == r0[k - 1]);
                } else {
                    assert(1 <= i < k);
                    assert(other.prev_in_ring(r0[i], v) == self.prev_in_ring(r0[i], v));
                    assert(self.prev_in_ring(r0[i], v) == r0[(i - 1 + k) % (k as int)]);
                    lemma_mod_add_multiples_vanish(i - 1, k);
                    lemma_small_mod((i - 1) as nat, k as nat);
                }
            }
        }
        assert(other.base_edge(v) != SENTINEL as int) by {
            if k == 0 {
                assert(other.base_edge(v) == n);
            } else {
                assert(other.base_edge(v) == r0[0]);
                assert(0 <= r0[0] < n);
            }
        }
        assert(r.len() > 0 ==> other.base_edge(v) == r[0]);
    }

    /// Splices the upcoming edge `n` into `v`'s ring as the ring's new last
    /// element (or makes it the base of a ring of one), and returns the
    /// next/prev links for the new edge's half-edge at `v`. The new edge
    /// itself is not stored yet; only existing records are rewritten, and
    /// only link fields on `v`'s side: everything else, including every other
    /// vertex's realized ring, is untouched.
    fn splice_ring(&mut self, v: Index, n: Index) -> (links: (Index, Index))
        requires
            old(self).vertex_count() <= SENTINEL as int,
            old(self).edge_count() <= SENTINEL as int,
            old(self).valid_vertex(v as int),
            n < SENTINEL,
            old(self).ring_ok(v as int),
        ensures
            final(self).vertex_count() == old(self).vertex_count(),
            final(self).edge_count() == old(self).edge_count(),
            final(self).faces@ == old(self).faces@,
            forall|u: int|
                0 <= u < old(self).vertex_count() && u != v as int
                    ==> #[trigger] final(self).verts@[u] == old(self).verts@[u],
            final(self).vertex_payload(v as int) == old(self).vertex_payload(v as int),
            final(self).base_edge(v as int) == (if old(self).ring(v as int).len() == 0 {
                n as int
            } else {
                old(self).base_edge(v as int)
            }),
            forall|ee: int|
                0 <= ee < old(self).edge_count() ==> #[trigger] final(self).edge_payload(ee) == old(
                    self,
                ).edge_payload(ee),
            forall|ee: int, side: int|
                0 <= ee < old(self).edge_count() ==> #[trigger] final(self).edge_vertex(ee, side)
                    == old(self).edge_vertex(ee, side),
            forall|ee: int, side: int|
                0 <= ee < old(self).edge_count() ==> #[trigger] final(self).edge_face(ee, side)
                    == old(self).edge_face(ee, side),
            forall|u: int| #[trigger] final(self).ring(u) == old(self).ring(u),
            forall|ee: int, u: int|
                0 <= ee < old(self).edge_count() && u != v as int && old(self).is_incident(ee, u)
                    ==> #[trigger] final(self).next_in_ring(ee, u) == old(self).next_in_ring(ee, u),
            forall|ee: int, u: int|
                0 <= ee < old(self).edge_count() && u != v as int && old(self).is_incident(ee, u)
                    ==> #[trigger] final(self).prev_in_ring(ee, u) == old(self).prev_in_ring(ee, u),
            forall|u: int|
                old(self).valid_vertex(u) && u != v as int && old(self).ring_ok(u)
                    ==> #[trigger] final(self).ring_ok(u),
            old(self).ring(v as int).len() == 0 ==> links == (n, n),
            old(self).ring(v as int).len() > 0 ==> ({
                let r = old(self).ring(v as int);
                let k = r.len() as int;
                &&& links.0 as int == r[0]
                &&& links.1 as int == r[k - 1]
                &&& final(self).next_in_ring(r[k - 1], v as int) == n as int
                &&& final(self).prev_in_ring(r[0], v as int) == n as int
                &&& (forall|i: int|
                    0 <= i < k - 1 ==> #[trigger] final(self).next_in_ring(r[i], v as int) == old(
                        self,
                    ).next_in_ring(r[i], v as int))
                &&& (forall|i: int|
                    1 <= i < k ==> #[trigger] final(self).prev_in_ring(r[i], v as int) == old(
                        self,
                    ).prev_in_ring(r[i], v as int))
            }),
    {
        proof {
            old(self).lemma_ring_up_to_props(v as int, old(self).edge_count());
        }
        let base_edge_index = self.verts[v as usize].base_edge_index;
        let links: (Index, Index);
        if self.is_valid_edge_index(base_edge_index) {
            let ghost r = self.ring(v as int);
            let ghost k = r.len() as int;
            proof {
                assert(self.base_edge(v as int) == r[0]);
                assert(r.contains(r[0]));
                lemma_mod_add_multiples_vanish(-1, k);
                lemma_small_mod((k - 1) as nat, k as nat);
                assert(self.prev_in_ring(r[0], v as int) == r[k - 1]);
            }
            let prev_edge_index = self.edges[base_edge_index as usize].previous_edge_index_for_vertex(
                v,
            );
            proof {
                assert(prev_edge_index as int == r[k - 1]);
                assert(r.contains(r[k - 1]));
                assert(0 <= r[k - 1] < self.edge_count());
            }
            if self.edges[prev_edge_index as usize].half_edge0.vertex_index == v {
                self.edges[prev_edge_index as usize].half_edge0.next_edge_index = n;
            } else {
                proof {
                    assert(old(self).is_incident(prev_edge_index as int, v as int));
                }
                self.edges[prev_edge_index as usize].half_edge1.next_edge_index = n;
            }
            if self.edges[base_edge_index as usize].half_edge0.vertex_index == v {
                self.edges[base_edge_index as usize].half_edge0.prev_edge_index = n;
            } else {
                proof {
                    assert(old(self).is_incident(base_edge_index as int, v as int));
                }
                self.edges[base_edge_index as usize].half_edge1.prev_edge_index = n;
            }
            links = (base_edge_index, prev_edge_index);
        } else {
            self.verts[v as usize].base_edge_index = n;
            links = (n, n);
        }
        proof {
            let m0 = *old(self);
            let m1 = *self;
            let vi = v as int;
            assert(m1.verts@.len() == m0.verts@.len());
            assert forall|ee: int, side: int|
                0 <= ee < m0.edge_count() implies #[trigger] m1.edge_vertex(ee, side)
                == m0.edge_vertex(ee, side) by {}
            assert forall|u: int| #[trigger] m1.ring(u) == m0.ring(u) by {
                assert forall|ee: int|
                    0 <= ee < m0.edge_count() implies #[trigger] m1.is_incident(ee, u)
                    == m0.is_incident(ee, u) by {
                    assert(m1.edge_vertex(ee, 0) == m0.edge_vertex(ee, 0));
                    assert(m1.edge_vertex(ee, 1) == m0.edge_vertex(ee, 1));
                }
                m0.lemma_ring_up_to_stable(m1, u, m0.edge_count());
            }
            assert forall|ee: int, u: int|
                0 <= ee < m0.edge_count() && u != vi && m0.is_incident(ee, u) implies #[trigger] m1.next_in_ring(
                ee,
                u,
            ) == m0.next_in_ring(ee, u) && m1.prev_in_ring(ee, u) == m0.prev_in_ring(ee, u) by {
                if m1.edges@[ee] != m0.edges@[ee] {
                    assert(m0.is_incident(ee, vi));
                }
            }
            assert forall|u: int|
                m0.valid_vertex(u) && u != vi && m0.ring_ok(u) implies #[trigger] m1.ring_ok(
                u,
            ) by {
                m0.lemma_ring_up_to_props(u, m0.edge_count());
                assert forall|e: int| m0.ring(u).contains(e) implies #[trigger] m1.next_in_ring(
                    e,
                    u,
                ) == m0.next_in_ring(e, u) && m1.prev_in_ring(e, u) == m0.prev_in_ring(e, u) by {
                    assert(m0.is_incident(e, u) && 0 <= e < m0.edge_count());
                }
                m0.lemma_ring_ok_transfer(m1, u);
            }
        }
        links
    }

    /// Creates an edge carrying `e` between vertices `v1` and `v2` and
    /// returns its index. The new edge is spliced into each endpoint's ring
    /// as the ring's new last element; a self-loop (`v1 == v2`) enters its
    /// vertex's ring once. Both endpoints are validated before any mutation:
    /// an invalid reference is rejected with the mesh left unchanged.
    pub fn add_edge(&mut self, e: E, v1: Index, v2: Index) -> (r: Result<Index, MeshError>)
        requires
            old(self).wf(),
            old(self).edge_count() < SENTINEL as int,
        ensures
            final(self).wf(),
            match r {
                Ok(idx) => {
                    &&& old(self).valid_vertex(v1 as int)
                    &&& old(self).valid_vertex(v2 as int)
                    &&& idx as int == old(self).edge_count()
                    &&& final(self).edge_count() == old(self).edge_count() + 1
                    &&& final(self).vertex_count() == old(self).vertex_count()
                    &&& final(self).face_count() == old(self).face_count()
                    &&& final(self).edge_payload(idx as int) == e
                    &&& final(self).edge_vertex(idx as int, 0) == v1 as int
                    &&& final(self).edge_vertex(idx as int, 1) == v2 as int
                    &&& final(self).edge_face(idx as int, 0) == SENTINEL as int
                    &&& final(self).edge_face(idx as int, 1) == SENTINEL as int
                    &&& (forall|u: int|
                        old(self).valid_vertex(u) ==> #[trigger] final(self).ring(u) == (if u == v1 as int
                            || u == v2 as int {
                            old(self).ring(u).push(old(self).edge_count())
                        } else {
                            old(self).ring(u)
                        }))
                    &&& (forall|u: int|
                        old(self).valid_vertex(u) ==> #[trigger] final(self).vertex_payload(u) == old(
                            self,
                        ).vertex_payload(u))
                    &&& (forall|ee: int|
                        old(self).valid_edge(ee) ==> #[trigger] final(self).edge_payload(ee) == old(
                            self,
                        ).edge_payload(ee))
                    &&& (forall|ee: int, side: int|
                        old(self).valid_edge(ee) ==> #[trigger] final(self).edge_vertex(ee, side)
                            == old(self).edge_vertex(ee, side))
                    &&& (forall|ee: int, side: int|
                        old(self).valid_edge(ee) ==> #[trigger] final(self).edge_face(ee, side)
                            == old(self).edge_face(ee, side))
                    &&& (forall|f: int|
                        old(self).valid_face(f) ==> #[trigger] final(self).face_payload(f) == old(
                            self,
                        ).face_payload(f) && #[trigger] final(self).face_base_edge(f) == old(
                            self,
                        ).face_base_edge(f))
                },
                Err(err) => {
                    &&& err == MeshError::InvalidReference
                    &&& !(old(self).valid_vertex(v1 as int) && old(self).valid_vertex(v2 as int))
                    &&& *final(self) == *old(self)
                },
            },
    {
        if !self.is_valid_vertex_index(v1) || !self.is_valid_vertex_index(v2) {
            return Err(MeshError::InvalidReference);
        }
        let ghost m0 = *self;
        let ghost v1i = v1 as int;
        let ghost v2i = v2 as int;
        let ghost r1 = m0.ring(v1i);
        let ghost k1 = r1.len() as int;
        let ghost r2 = m0.ring(v2i);
        let ghost k2 = r2.len() as int;
        let n: Index = self.edges.len() as u32;

        let mut new_edge: EdgeInfo<E> = EdgeInfo::new(e);
        new_edge.half_edge0.vertex_index = v1;
        new_edge.half_edge1.vertex_index = v2;

        proof {
            assert(m0.ring_ok(v1i));
            m0.lemma_ring_up_to_props(v1i, m0.edge_count());
            m0.lemma_ring_up_to_props(v2i, m0.edge_count());
        }
        let links1 = self.splice_ring(v1, n);
        new_edge.half_edge0.next_edge_index = links1.0;
        new_edge.half_edge0.prev_edge_index = links1.1;
        let ghost m1 = *self;
        if v2 != v1 {
            proof {
                assert(m0.ring_ok(v2i));
                assert(m1.ring_ok(v2i));
            }
            let links2 = self.splice_ring(v2, n);
            new_edge.half_edge1.next_edge_index = links2.0;
            new_edge.half_edge1.prev_edge_index = links2.1;
        }
        let ghost m2 = *self;
        let ghost ne = new_edge;
        self.edges.push(new_edge);
        proof {
            let m3 = *self;
            let ni = n as int;
            assert(m3.edges@ == m2.edges@.push(ne));

            // Records below the new index carry over unchanged from before the push,
            // and, field by field, from before the splices.
            assert forall|ee: int, side: int|
                0 <= ee < ni implies #[trigger] m3.edge_vertex(ee, side) == m0.edge_vertex(
                ee,
                side,
            ) by {
                assert(m3.edges@[ee] == m2.edges@[ee]);
                assert(m2.edge_vertex(ee, side) == m1.edge_vertex(ee, side));
                assert(m1.edge_vertex(ee, side) == m0.edge_vertex(ee, side));
            }
            assert forall|ee: int, side: int|
                0 <= ee < ni implies #[trigger] m3.edge_face(ee, side) == m0.edge_face(
                ee,
                side,
            ) by {
                assert(m3.edges@[ee] == m2.edges@[ee]);
                assert(m2.edge_face(ee, side) == m1.edge_face(ee, side));
                assert(m1.edge_face(ee, side) == m0.edge_face(ee, side));
            }
            assert forall|ee: int| 0 <= ee < ni implies #[trigger] m3.edge_payload(ee)
                == m0.edge_payload(ee) by {
                assert(m3.edges@[ee] == m2.edges@[ee]);
                assert(m2.edge_payload(ee) == m1.edge_payload(ee));
                assert(m1.edge_payload(ee) == m0.edge_payload(ee));
            }
            assert forall|ee: int, u: int|
                0 <= ee < ni implies #[trigger] m3.is_incident(ee, u) == m0.is_incident(ee, u) by {
                assert(m3.edge_vertex(ee, 0) == m0.edge_vertex(ee, 0));
                assert(m3.edge_vertex(ee, 1) == m0.edge_vertex(ee, 1));
            }
            assert forall|u: int|
                0 <= u < m0.vertex_count() && u != v1i && u != v2i implies #[trigger] m3.verts@[u]
                == m0.verts@[u] by {}
            assert forall|u: int|
                0 <= u < m0.vertex_count() implies #[trigger] m3.vertex_payload(u)
                == m0.vertex_payload(u) by {}
            assert(m3.faces@ == m0.faces@);

            // The new record sits at index `n` with the spliced links.
            assert(m3.edges@[ni] == ne);
            assert(m3.edge_vertex(ni, 0) == v1i);
            assert(m3.edge_vertex(ni, 1) == v2i);
            assert(m3.edge_payload(ni) == e);
            assert(m3.edge_face(ni, 0) == SENTINEL as int);
            assert(m3.edge_face(ni, 1) == SENTINEL as int);
            assert forall|u: int| #[trigger] m3.is_incident(ni, u) == (u == v1i || u == v2i) by {}

            // Every ring grows by the new edge exactly where it is incident.
            assert forall|u: int| #[trigger] m3.ring(u) == (if u == v1i || u == v2i {
                m0.ring(u).push(ni)
            } else {
                m0.ring(u)
            }) by {
                m0.lemma_ring_up_to_stable(m3, u, ni);
                assert(m3.ring(u) == m3.ring_up_to(u, ni + 1));
            }

            // The spliced links seen from the final mesh, for each endpoint.
            if k1 > 0 {
                assert(m1.next_in_ring(r1[k1 - 1], v1i) == ni);
                assert(m1.prev_in_ring(r1[0], v1i) == ni);
                assert(r1.contains(r1[0]) && r1.contains(r1[k1 - 1]));
                assert(m0.is_incident(r1[0], v1i) && m0.is_incident(r1[k1 - 1], v1i));
                assert(m2.next_in_ring(r1[k1 - 1], v1i) == ni);
                assert(m2.prev_in_ring(r1[0], v1i) == ni);
                assert(m3.next_in_ring(r1[k1 - 1], v1i) == ni);
                assert(m3.prev_in_ring(r1[0], v1i) == ni);
                assert(m3.base_edge(v1i) == m0.base_edge(v1i));
            } else {
                assert(m1.base_edge(v1i) == ni);
                assert(m3.verts@[v1i] == m1.verts@[v1i]);
                assert(m3.base_edge(v1i) == ni);
            }
            assert(ne.half_edge0.vertex_index as int == v1i);
            assert(m3.next_in_ring(ni, v1i) == (if k1 == 0 {
                ni
            } else {
                r1[0]
            }));
            assert(m3.prev_in_ring(ni, v1i) == (if k1 == 0 {
                ni
            } else {
                r1[k1 - 1]
            }));
            assert forall|i: int|
                0 <= i < k1 - 1 implies #[trigger] m3.next_in_ring(r1[i], v1i) == m0.next_in_ring(
                r1[i],
                v1i,
            ) by {
                assert(r1.contains(r1[i]));
                assert(m0.is_incident(r1[i], v1i));
                assert(m1.next_in_ring(r1[i], v1i) == m0.next_in_ring(r1[i], v1i));
                assert(m2.next_in_ring(r1[i], v1i) == m1.next_in_ring(r1[i], v1i));
            }
            assert forall|i: int|
                1 <= i < k1 implies #[trigger] m3.prev_in_ring(r1[i], v1i) == m0.prev_in_ring(
                r1[i],
                v1i,
            ) by {
                assert(r1.contains(r1[i]));
                assert(m0.is_incident(r1[i], v1i));
                assert(m1.prev_in_ring(r1[i], v1i) == m0.prev_in_ring(r1[i], v1i));
                assert(m2.prev_in_ring(r1[i], v1i) == m1.prev_in_ring(r1[i], v1i));
            }
            m0.lemma_spliced_ring_ok(m3, v1i, ni);

            if v2i != v1i {
                assert(m1.ring(v2i) == r2);
                if k2 > 0 {
                    assert(m2.next_in_ring(r2[k2 - 1], v2i) == ni);
                    assert(m2.prev_in_ring(r2[0], v2i) == ni);
                    assert(m3.next_in_ring(r2[k2 - 1], v2i) == ni);
                    assert(m3.prev_in_ring(r2[0], v2i) == ni);
                    assert(m2.base_edge(v2i) == m1.base_edge(v2i));
                    assert(m1.verts@[v2i] == m0.verts@[v2i]);
                    assert(m3.base_edge(v2i) == m0.base_edge(v2i));
                } else {
                    assert(m2.base_edge(v2i) == ni);
                    assert(m3.base_edge(v2i) == ni);
                }
                assert(ne.half_edge0.vertex_index as int != v2i);
                assert(ne.half_edge1.vertex_index as int == v2i);
                assert(m3.next_in_ring(ni, v2i) == (if k2 == 0 {
                    ni
                } else {
                    r2[0]
                }));
                assert(m3.prev_in_ring(ni, v2i) == (if k2 == 0 {
                    ni
                } else {
                    r2[k2 - 1]
                }));
                assert forall|i: int|
                    0 <= i < k2 - 1 implies #[trigger] m3.next_in_ring(r2[i], v2i)
                    == m0.next_in_ring(r2[i], v2i) by {
                    assert(r2.contains(r2[i]));
                    assert(m0.is_incident(r2[i], v2i));
                    assert(m1.is_incident(r2[i], v2i) == m0.is_incident(r2[i], v2i));
                    assert(m1.next_in_ring(r2[i], v2i) == m0.next_in_ring(r2[i], v2i));
                    assert(m2.next_in_ring(r2[i], v2i) == m1.next_in_ring(r2[i], v2i));
                }
                assert forall|i: int|
                    1 <= i < k2 implies #[trigger] m3.prev_in_ring(r2[i], v2i) == m0.prev_in_ring(
                    r2[i],
                    v2i,
                ) by {
                    assert(r2.contains(r2[i]));
                    assert(m0.is_incident(r2[i], v2i));
                    assert(m1.is_incident(r2[i], v2i) == m0.is_incident(r2[i], v2i));
                    assert(m1.prev_in_ring(r2[i], v2i) == m0.prev_in_ring(r2[i], v2i));
                    assert(m2.prev_in_ring(r2[i], v2i) == m1.prev_in_ring(r2[i], v2i));
                }
                m0.lemma_spliced_ring_ok(m3, v2i, ni);
            }

            // Vertices away from both endpoints keep their realized ring.
            assert forall|u: int|
                m3.valid_vertex(u) && u != v1i && u != v2i implies #[trigger] m3.ring_ok(u) by {
                assert(m0.ring_ok(u));
                m0.lemma_ring_up_to_props(u, ni);
                assert(m3.base_edge(u) == m0.base_edge(u));
                assert forall|ee: int| m0.ring(u).contains(ee) implies #[trigger] m3.next_in_ring(
                    ee,
                    u,
                ) == m0.next_in_ring(ee, u) by {
                    assert(m0.is_incident(ee, u) && 0 <= ee < ni);
                    assert(m1.is_incident(ee, u) == m0.is_incident(ee, u));
                    assert(m1.next_in_ring(ee, u) == m0.next_in_ring(ee, u));
                    assert(m2.next_in_ring(ee, u) == m1.next_in_ring(ee, u));
                }
                assert forall|ee: int| m0.ring(u).contains(ee) implies #[trigger] m3.prev_in_ring(
                    ee,
                    u,
                ) == m0.prev_in_ring(ee, u) by {
                    assert(m0.is_incident(ee, u) && 0 <= ee < ni);
                    assert(m1.is_incident(ee, u) == m0.is_incident(ee, u));
                    assert(m1.prev_in_ring(ee, u) == m0.prev_in_ring(ee, u));
                    assert(m2.prev_in_ring(ee, u) == m1.prev_in_ring(ee, u));
                }
                m0.lemma_ring_ok_transfer(m3, u);
            }

            // Well-formedness of the final mesh.
            assert forall|ee: int| m3.valid_edge(ee) implies m3.valid_vertex(
                #[trigger] m3.edge_vertex(ee, 0),
            ) && m3.valid_vertex(m3.edge_vertex(ee, 1)) by {
                if ee < ni {
                    assert(m3.edge_vertex(ee, 0) == m0.edge_vertex(ee, 0));
                    assert(m3.edge_vertex(ee, 1) == m0.edge_vertex(ee, 1));
                }
            }
            assert forall|f: int| m3.valid_face(f) implies m3.valid_edge(
                #[trigger] m3.face_base_edge(f),
            ) by {
                assert(m3.face_base_edge(f) == m0.face_base_edge(f));
            }
            assert forall|u: int| m3.valid_vertex(u) implies #[trigger] m3.ring_ok(u) by {}
            assert(m3.wf());
        }
        Ok(n)
    }

    /// The incident-edge law: the ring of vertex `v` holds exactly the edges
    /// incident to `v`, each exactly once (a self-loop enters once), in
    /// strictly increasing creation order.
    pub proof fn lemma_ring_members(self, v: int)
        requires
            self.wf(),
            self.valid_vertex(v),
        ensures
            forall|e: int|
                #[trigger] self.ring(v).contains(e) <==> (self.valid_edge(e) && self.is_incident(
                    e,
                    v,
                )),
            forall|i: int|
                0 <= i < self.ring(v).len() ==> self.valid_edge(#[trigger] self.ring(v)[i])
                    && self.is_incident(self.ring(v)[i], v),
            forall|i: int, j: int|
                0 <= i < j < self.ring(v).len() ==> #[trigger] self.ring(v)[i]
                    < #[trigger] self.ring(v)[j],
            self.ring(v).no_duplicates(),
    {
        self.lemma_ring_up_to_props(v, self.edge_count());
        let r = self.ring(v);
        assert forall|i: int, j: int|
            0 <= i < r.len() && 0 <= j < r.len() && i != j implies r[i] != r[j] by {
            if i < j {
                assert(r[i] < r[j]);
            } else {
                assert(r[j] < r[i]);
            }
        }
    }

    /// Walking `steps` times along the stored `next` links around `v`,
    /// starting from (and counting from) the vertex's base edge.
    pub open spec fn walk_next(self, v: int, steps: nat) -> int
        decreases steps,
    {
        if steps == 0 {
            self.base_edge(v)
        } else {
            self.next_in_ring(self.walk_next(v, (steps - 1) as nat), v)
        }
    }

    /// The walk around `v` stands at ring position `steps` modulo the ring's
    /// length.
    proof fn lemma_walk_next(self, v: int, steps: nat)
        requires
            self.wf(),
            self.valid_vertex(v),
            self.ring(v).len() > 0,
        ensures
            self.walk_next(v, steps) == self.ring(v)[steps as int % (self.ring(v).len() as int)],
        decreases steps,
    {
        let r = self.ring(v);
        let k = r.len() as int;
        assert(self.ring_ok(v));
        if steps == 0 {
            lemma_small_mod(0, k as nat);
        } else {
            self.lemma_walk_next(v, (steps - 1) as nat);
            let a = (steps - 1) as int % k;
            lemma_mod_bound((steps - 1) as int, k);
            assert(self.next_in_ring(r[a], v) == r[(a + 1) % k]);
            lemma_add_mod_noop((steps - 1) as int, 1, k);
            if k == 1 {
                lemma_mod_self_0(1);
            } else {
                lemma_small_mod(1, k as nat);
            }
        }
    }

    /// The ring-closure law: around a vertex with a non-empty ring of `k`
    /// incident edges, walking `next` from the base edge returns to the base
    /// edge after exactly `k` steps, and however many steps are taken the
    /// walk only ever stands on edges of the ring: more walking never reveals
    /// a new distinct edge.
    pub proof fn lemma_ring_closure(self, v: int)
        requires
            self.wf(),
            self.valid_vertex(v),
            self.ring(v).len() > 0,
        ensures
            self.walk_next(v, 0) == self.base_edge(v),
            self.walk_next(v, self.ring(v).len() as nat) == self.base_edge(v),
            forall|steps: nat| self.ring(v).contains(#[trigger] self.walk_next(v, steps)),
    {
        let r = self.ring(v);
        let k = r.len() as int;
        assert(self.ring_ok(v));
        self.lemma_walk_next(v, r.len() as nat);
        lemma_mod_self_0(k);
        assert(self.walk_next(v, r.len() as nat) == r[0]);
        assert forall|steps: nat| r.contains(#[trigger] self.walk_next(v, steps)) by {
            self.lemma_walk_next(v, steps);
            lemma_mod_bound(steps as int, k);
            assert(r[steps as int % k] == self.walk_next(v, steps));
        }
    }

    /// The vertex record at `index`, absent for an invalid index.
    fn vertex_info(&self, index: Index) -> (r: Option<&VertexInfo<V>>)
        ensures
            match r {
                Some(info) => index < SENTINEL && self.valid_vertex(index as int) && *info
                    == self.verts@[index as int],
                None => !(index < SENTINEL && self.valid_vertex(index as int)),
            },
    {
        if self.is_valid_vertex_index(index) {
            return Some(&self.verts[index as usize]);
        }
        return None;
    }

    /// The edge record at `index`, absent for an invalid index.
    fn edge_info(&self, index: Index) -> (r: Option<&EdgeInfo<E>>)
        ensures
            match r {
                Some(info) => index < SENTINEL && self.valid_edge(index as int) && *info
                    == self.edges@[index as int],
                None => !(index < SENTINEL && self.valid_edge(index as int)),
            },
    {
        if self.is_valid_edge_index(index) {
            return Some(&self.edges[index as usize]);
        }
        return None;
    }

    /// The face record at `index`, absent for an invalid index.
    fn face_info(&self, index: Index) -> (r: Option<&FaceInfo<F>>)
        ensures
            match r {
                Some(info) => index < SENTINEL && self.valid_face(index as int) && *info
                    == self.faces@[index as int],
                None => !(index < SENTINEL && self.valid_face(index as int)),
            },
    {
        if self.is_valid_face_index(index) {
            return Some(&self.faces[index as usize]);
        }
        return None;
    }

    /// A read cursor on the vertex at `index` (which need not be valid).
    pub fn vertex(&self, index: Index) -> (r: VertexRef<'_, V, E, F>)
        ensures
            r.spec_mesh() == *self,
            r.spec_index() == index as int,
    {
        VertexRef { mesh: self, vertex_index: index }
    }

    /// A write-capable cursor on the vertex at `index`; it holds exclusive
    /// access to the mesh for its lifetime.
    pub fn vertex_mut(&mut self, index: Index) -> (r: MutVertexRef<'_, V, E, F>)
        ensures
            r.spec_mesh() == *old(self),
            r.spec_index() == index as int,
    {
        MutVertexRef { mesh: self, vertex_index: index }
    }

    /// A read cursor on the edge at `index` (which need not be valid).
    pub fn edge(&self, index: Index) -> (r: EdgeRef<'_, V, E, F>)
        ensures
            r.spec_mesh() == *self,
            r.spec_index() == index as int,
    {
        EdgeRef { mesh: self, edge_index: index }
    }

    /// A read cursor on the face at `index` (which need not be valid).
    pub fn face(&self, index: Index) -> (r: FaceRef<'_, V, E, F>)
        ensures
            r.spec_mesh() == *self,
            r.spec_index() == index as int,
    {
        FaceRef { mesh: self, face_index: index }
    }

    /// An iterator over all vertices in index order.
    pub fn vertex_iter(&self) -> (it: MeshVertexIterator<'_, V, E, F>)
        ensures
            it.spec_mesh() == *self,
            it.spec_index() == 0,
    {
        MeshVertexIterator { mesh: self, vertex_index: 0 }
    }

    /// An iterator over all edges in index order.
    pub fn edge_iter(&self) -> (it: MeshEdgeIterator<'_, V, E, F>)
        ensures
            it.spec_mesh() == *self,
            it.spec_index() == 0,
    {
        MeshEdgeIterator { mesh: self, edge_index: 0 }
    }

    /// An iterator over all faces in index order.
    pub fn face_iter(&self) -> (it: MeshFaceIterator<'_, V, E, F>)
        ensures
            it.spec_mesh() == *self,
            it.spec_index() == 0,
    {
        MeshFaceIterator { mesh: self, face_index: 0 }
    }
}

/*
 * Vertex cursors
 */

/// A read cursor: a (mesh, index) pair giving access to one vertex and to
/// traversal iterators starting there.
#[derive(Clone, Copy)]
pub struct VertexRef<'a, V, E, F> {
    mesh: &'a Mesh<V, E, F>,
    vertex_index: Index,
}

impl<'a, V, E, F> VertexRef<'a, V, E, F> {
    /// The mesh this cursor reads.
    pub closed spec fn spec_mesh(self) -> Mesh<V, E, F> {
        *self.mesh
    }

    /// The index this cursor points at.
    pub closed spec fn spec_index(self) -> int {
        self.vertex_index as int
    }

    /// Whether this cursor points at a live vertex.
    pub open spec fn spec_is_valid(self) -> bool {
        self.spec_index() < SENTINEL as int && self.spec_mesh().valid_vertex(self.spec_index())
    }

    /// Creates a cursor on `index` in `mesh`.
    pub fn new(mesh: &'a Mesh<V, E, F>, index: Index) -> (r: Self)
        ensures
            r.spec_mesh() == *mesh,
            r.spec_index() == index as int,
    {
        VertexRef { mesh, vertex_index: index }
    }

    /// The mesh this cursor reads.
    pub fn mesh(&self) -> (r: &'a Mesh<V, E, F>)
        ensures
            *r == self.spec_mesh(),
    {
        self.mesh
    }

    /// The index this cursor points at.
    pub fn index(&self) -> (r: Index)
        ensures
            r as int == self.spec_index(),
    {
        self.vertex_index
    }

    /// Whether this cursor points at a live vertex.
    pub fn is_valid(&self) -> (r: bool)
        ensures
            r == self.spec_is_valid(),
    {
        self.mesh.is_valid_vertex_index(self.vertex_index)
    }

    /// The vertex's payload, absent if the cursor is invalid.
    pub fn data(&self) -> (r: Option<&'a V>)
        ensures
            match r {
                Some(d) => self.spec_is_valid() && *d == self.spec_mesh().vertex_payload(
                    self.spec_index(),
                ),
                None => !self.spec_is_valid(),
            },
    {
        if self.is_valid() {
            return Some(&self.vertex_info().unwrap().data);
        }
        return None;
    }

    /// An iterator over the edges incident to this vertex, in ring order;
    /// immediately exhausted on an invalid vertex.
    pub fn edge_iter(self) -> (it: VertexEdgeIterator<'a, V, E, F>)
        requires
            self.spec_mesh().wf(),
        ensures
            it.inv(),
            it.spec_mesh() == self.spec_mesh(),
            it.spec_pos() == 0,
            it.spec_vertex() == (if self.spec_is_valid() {
                self.spec_index()
            } else {
                SENTINEL as int
            }),
            it.ring_view() == (if self.spec_is_valid() {
                self.spec_mesh().ring(self.spec_index())
            } else {
                Seq::<int>::empty()
            }),
    {
        VertexEdgeIterator::new(self)
    }

    /// An iterator over the face links of the edges incident to this vertex,
    /// in ring order; immediately exhausted on an invalid vertex.
    pub fn face_iter(self) -> (it: VertexFaceIterator<'a, V, E, F>)
        requires
            self.spec_mesh().wf(),
        ensures
            it.inv(),
            it.spec_mesh() == self.spec_mesh(),
            it.spec_pos() == 0,
            it.spec_vertex() == (if self.spec_is_valid() {
                self.spec_index()
            } else {
                SENTINEL as int
            }),
            it.ring_view() == (if self.spec_is_valid() {
                self.spec_mesh().ring(self.spec_index())
            } else {
                Seq::<int>::empty()
            }),
    {
        VertexFaceIterator { edge_iter: self.edge_iter() }
    }

    /// The vertex record this cursor points at, absent if invalid.
    fn vertex_info(&self) -> (r: Option<&'a VertexInfo<V>>)
        ensures
            match r {
                Some(info) => self.spec_is_valid() && *info
                    == self.spec_mesh().verts@[self.spec_index()],
                None => !self.spec_is_valid(),
            },
    {
        self.mesh.vertex_info(self.vertex_index)
    }
}

/*
 * Vertex traversal iterators
 */

/// A lazy, restartable iterator over the edges incident to one vertex, in
/// ring order: the vertex's base edge first, then each stored `next` link in
/// turn, stopping when the walk would return to the base edge.
#[derive(Clone)]
pub struct VertexEdgeIterator<'a, V, E, F> {
    mesh: &'a Mesh<V, E, F>,
    base_vertex_index: Index,
    start_edge_index: Option<Index>,
    current_edge_index: Option<Index>,
    pos: Ghost<int>,
}

impl<'a, V, E, F> VertexEdgeIterator<'a, V, E, F> {
    /// The mesh this iterator reads.
    pub closed spec fn spec_mesh(self) -> Mesh<V, E, F> {
        *self.mesh
    }

    /// The vertex whose ring is walked (the sentinel if the iterator was
    /// built on an invalid cursor).
    pub closed spec fn spec_vertex(self) -> int {
        self.base_vertex_index as int
    }

    /// How many edges have been yielded so far.
    pub closed spec fn spec_pos(self) -> int {
        self.pos@
    }

    /// The sequence of edge indices this iterator yields in total: the
    /// vertex's ring, or the empty sequence for an invalid vertex.
    pub open spec fn ring_view(self) -> Seq<int> {
        if self.spec_mesh().valid_vertex(self.spec_vertex()) {
            self.spec_mesh().ring(self.spec_vertex())
        } else {
            Seq::empty()
        }
    }

    /// The iterator's well-formedness: its stored start and current edges
    /// track the ring at position `spec_pos`.
    pub closed spec fn inv(self) -> bool {
        &&& self.mesh.wf()
        &&& 0 <= self.pos@ <= self.ring_view().len()
        &&& (match self.start_edge_index {
            Some(s) => self.ring_view().len() > 0 && s as int == self.ring_view()[0],
            None => self.ring_view().len() == 0,
        })
        &&& (match self.current_edge_index {
            Some(c) => self.pos@ < self.ring_view().len() && c as int
                == self.ring_view()[self.pos@],
            None => self.pos@ == self.ring_view().len(),
        })
    }

    /// Creates an iterator over the edges incident to `base`; immediately
    /// exhausted if `base` is invalid.
    pub fn new(base: VertexRef<'a, V, E, F>) -> (it: Self)
        requires
            base.spec_mesh().wf(),
        ensures
            it.inv(),
            it.spec_mesh() == base.spec_mesh(),
            it.spec_pos() == 0,
            it.spec_vertex() == (if base.spec_is_valid() {
                base.spec_index()
            } else {
                SENTINEL as int
            }),
            it.ring_view() == (if base.spec_is_valid() {
                base.spec_mesh().ring(base.spec_index())
            } else {
                Seq::<int>::empty()
            }),
    {
        if base.is_valid() {
            proof {
                assert(base.spec_mesh().ring_ok(base.spec_index()));
            }
            let base_edge = index_to_option(base.vertex_info().unwrap().base_edge_index);
            VertexEdgeIterator {
                mesh: base.mesh,
                base_vertex_index: base.vertex_index,
                start_edge_index: base_edge,
                current_edge_index: base_edge,
                pos: Ghost(0),
            }
        } else {
            VertexEdgeIterator {
                mesh: base.mesh,
                base_vertex_index: SENTINEL,
                start_edge_index: None,
                current_edge_index: None,
                pos: Ghost(0),
            }
        }
    }

    /// A cursor on the vertex whose ring is walked.
    pub fn vertex(&self) -> (r: VertexRef<'a, V, E, F>)
        ensures
            r.spec_mesh() == self.spec_mesh(),
            r.spec_index() == self.spec_vertex(),
    {
        self.mesh.vertex(self.base_vertex_index)
    }

    /// A cursor on the ring's entry edge, absent for an empty ring.
    pub fn start_edge(&self) -> (r: Option<EdgeRef<'a, V, E, F>>)
        requires
            self.inv(),
        ensures
            match r {
                Some(er) => self.ring_view().len() > 0 && er.spec_mesh() == self.spec_mesh()
                    && er.spec_index() == self.ring_view()[0],
                None => self.ring_view().len() == 0,
            },
    {
        match self.start_edge_index {
            Some(index) => Some(EdgeRef { mesh: self.mesh, edge_index: index }),
            None => None,
        }
    }

    /// The record of the edge the iterator stands on, absent once exhausted.
    fn current_edge(&self) -> (r: Option<&EdgeInfo<E>>)
        requires
            self.inv(),
        ensures
            match r {
                Some(info) => self.spec_pos() < self.ring_view().len() && *info
                    == self.spec_mesh().edges@[self.ring_view()[self.spec_pos()]],
                None => self.spec_pos() == self.ring_view().len(),
            },
    {
        proof {
            self.spec_mesh().lemma_ring_up_to_props(
                self.spec_vertex(),
                self.spec_mesh().edge_count(),
            );
        }
        match self.current_edge_index {
            Some(index) => self.mesh.edge_info(index),
            None => None,
        }
    }

    /// Restartability law: two well-formed iterators over the same vertex of
    /// the same mesh standing at the same position are one and the same
    /// value, so they yield the same cursors from there on. In particular,
    /// two freshly built iterators yield the same sequence of edges.
    pub proof fn lemma_restartable(self, other: Self)
        requires
            self.inv(),
            other.inv(),
            self.spec_mesh() == other.spec_mesh(),
            self.spec_vertex() == other.spec_vertex(),
            self.spec_pos() == other.spec_pos(),
        ensures
            self == other,
    {
        assert(self.ring_view() == other.ring_view());
        match (self.start_edge_index, other.start_edge_index) {
            (Some(s1), Some(s2)) => {
                assert(s1 as int == s2 as int);
            },
            _ => {},
        }
        match (self.current_edge_index, other.current_edge_index) {
            (Some(c1), Some(c2)) => {
                assert(c1 as int == c2 as int);
            },
            _ => {},
        }
    }

    /// Yields a cursor on the next incident edge, in ring order, or `None`
    /// once every incident edge has been yielded.
    pub fn next(&mut self) -> (r: Option<EdgeRef<'a, V, E, F>>)
        requires
            old(self).inv(),
        ensures
            final(self).inv(),
            final(self).spec_mesh() == old(self).spec_mesh(),
            final(self).spec_vertex() == old(self).spec_vertex(),
            final(self).ring_view() == old(self).ring_view(),
            old(self).spec_pos() < old(self).ring_view().len() ==> final(self).spec_pos() == old(
                self,
            ).spec_pos() + 1 && (match r {
                Some(er) => er.spec_mesh() == old(self).spec_mesh() && er.spec_index() == old(
                    self,
                ).ring_view()[old(self).spec_pos()] && er.spec_is_valid(),
                None => false,
            }),
            old(self).spec_pos() >= old(self).ring_view().len() ==> final(self).spec_pos() == old(
                self,
            ).spec_pos() && r is None,
    {
        let ghost m = self.spec_mesh();
        let ghost v = self.spec_vertex();
        let ghost rv = self.ring_view();
        let ghost pos = self.spec_pos();
        match self.current_edge() {
            Some(edge) => {
                proof {
                    m.lemma_ring_up_to_props(v, m.edge_count());
                    assert(rv.contains(rv[pos]));
                    assert(m.ring_ok(v));
                }
                let next_edge_index = edge.next_edge_index_for_vertex(self.base_vertex_index);
                let current = self.current_edge_index.unwrap();
                let start = self.start_edge_index.unwrap();
                proof {
                    assert(next_edge_index as int == m.next_in_ring(rv[pos], v));
                    assert(next_edge_index as int == rv[(pos + 1) % (rv.len() as int)]);
                    if pos + 1 < rv.len() {
                        lemma_small_mod((pos + 1) as nat, rv.len() as nat);
                    } else {
                        lemma_mod_self_0(rv.len() as int);
                    }
                }
                if next_edge_index == start {
                    proof {
                        if pos + 1 < rv.len() {
                            assert(rv[pos + 1] == rv[0]);
                            assert(false);
                        }
                    }
                    self.current_edge_index = None;
                } else {
                    proof {
                        if pos + 1 == rv.len() {
                            assert(next_edge_index as int == rv[0]);
                            assert(false);
                        }
                    }
                    self.current_edge_index = Some(next_edge_index);
                }
                self.pos = Ghost(pos + 1);
                Some(EdgeRef { mesh: self.mesh, edge_index: current })
            },
            None => None,
        }
    }
}

/// A lazy iterator over the face links of the edges incident to one vertex,
/// in ring order: for each incident edge, the face stored on the half-edge
/// side matching the vertex (an invalid reference while face linkage has not
/// been populated).
#[derive(Clone)]
pub struct VertexFaceIterator<'a, V, E, F> {
    edge_iter: VertexEdgeIterator<'a, V, E, F>,
}

impl<'a, V, E, F> VertexFaceIterator<'a, V, E, F> {
    /// The mesh this iterator reads.
    pub closed spec fn spec_mesh(self) -> Mesh<V, E, F> {
        self.edge_iter.spec_mesh()
    }

    /// The vertex whose ring is walked.
    pub closed spec fn spec_vertex(self) -> int {
        self.edge_iter.spec_vertex()
    }

    /// How many face links have been yielded so far.
    pub closed spec fn spec_pos(self) -> int {
        self.edge_iter.spec_pos()
    }

    /// The edge indices whose face links this iterator yields, in order.
    pub closed spec fn ring_view(self) -> Seq<int> {
        self.edge_iter.ring_view()
    }

    /// The iterator's well-formedness.
    pub closed spec fn inv(self) -> bool {
        self.edge_iter.inv()
    }

    /// Yields a cursor on the face linked on the next incident edge's
    /// half-edge for this vertex, or `None` once the ring is exhausted.
    pub fn next(&mut self) -> (r: Option<FaceRef<'a, V, E, F>>)
        requires
            old(self).inv(),
        ensures
            final(self).inv(),
            final(self).spec_mesh() == old(self).spec_mesh(),
            final(self).spec_vertex() == old(self).spec_vertex(),
            final(self).ring_view() == old(self).ring_view(),
            old(self).spec_pos() < old(self).ring_view().len() ==> final(self).spec_pos() == old(
                self,
            ).spec_pos() + 1 && (match r {
                Some(fr) => fr.spec_mesh() == old(self).spec_mesh() && fr.spec_index() == old(
                    self,
                ).spec_mesh().face_link(
                    old(self).ring_view()[old(self).spec_pos()],
                    old(self).spec_vertex(),
                ),
                None => false,
            }),
            old(self).spec_pos() >= old(self).ring_view().len() ==> final(self).spec_pos() == old(
                self,
            ).spec_pos() && r is None,
    {
        let base_vertex_index = self.edge_iter.base_vertex_index;
        let ghost m = self.edge_iter.spec_mesh();
        let ghost v = self.edge_iter.spec_vertex();
        let ghost rv = self.edge_iter.ring_view();
        let ghost pos = self.edge_iter.spec_pos();
        match self.edge_iter.next() {
            Some(maybe_edge) => {
                proof {
                    m.lemma_ring_up_to_props(v, m.edge_count());
                    assert(rv.contains(rv[pos]));
                }
                let info = maybe_edge.edge_info().unwrap();
                let he = info.half_edge_for_vertex(base_vertex_index);
                Some(FaceRef { mesh: self.edge_iter.mesh, face_index: he.next_face_index })
            },
            None => None,
        }
    }
}

/*
 * Edge cursors
 */

/// A read cursor: a (mesh, index) pair giving access to one edge.
#[derive(Clone, Copy)]
pub struct EdgeRef<'a, V, E, F> {
    mesh: &'a Mesh<V, E, F>,
    edge_index: Index,
}

impl<'a, V, E, F> EdgeRef<'a, V, E, F> {
    /// The mesh this cursor reads.
    pub closed spec fn spec_mesh(self) -> Mesh<V, E, F> {
        *self.mesh
    }

    /// The index this cursor points at.
    pub closed spec fn spec_index(self) -> int {
        self.edge_index as int
    }

    /// Whether this cursor points at a live edge.
    pub open spec fn spec_is_valid(self) -> bool {
        self.spec_index() < SENTINEL as int && self.spec_mesh().valid_edge(self.spec_index())
    }

    /// Creates a cursor on `index` in `mesh`.
    pub fn new(mesh: &'a Mesh<V, E, F>, index: Index) -> (r: EdgeRef<'a, V, E, F>)
        ensures
            r.spec_mesh() == *mesh,
            r.spec_index() == index as int,
    {
        EdgeRef { mesh, edge_index: index }
    }

    /// The index this cursor points at.
    pub fn index(&self) -> (r: Index)
        ensures
            r as int == self.spec_index(),
    {
        self.edge_index
    }

    /// Whether this cursor points at a live edge.
    pub fn is_valid(&self) -> (r: bool)
        ensures
            r == self.spec_is_valid(),
    {
        self.mesh.is_valid_edge_index(self.edge_index)
    }

    /// The edge's payload, absent if the cursor is invalid.
    pub fn data(&self) -> (r: Option<&'a E>)
        ensures
            match r {
                Some(d) => self.spec_is_valid() && *d == self.spec_mesh().edge_payload(
                    self.spec_index(),
                ),
                None => !self.spec_is_valid(),
            },
    {
        if self.is_valid() {
            return Some(&self.edge_info().unwrap().data);
        }
        return None;
    }

    /// Cursors on the edge's two endpoint vertices, in side order. For a
    /// self-loop both cursors point at the same vertex.
    pub fn vertices(&self) -> (r: Vec<VertexRef<'a, V, E, F>>)
        requires
            self.spec_mesh().valid_edge(self.spec_index()),
        ensures
            r@.len() == 2,
            r@[0].spec_mesh() == self.spec_mesh(),
            r@[1].spec_mesh() == self.spec_mesh(),
            r@[0].spec_index() == self.spec_mesh().edge_vertex(self.spec_index(), 0),
            r@[1].spec_index() == self.spec_mesh().edge_vertex(self.spec_index(), 1),
    {
        let info = &self.mesh.edges[self.edge_index as usize];
        vec![
            VertexRef { mesh: self.mesh, vertex_index: info.half_edge0.vertex_index },
            VertexRef { mesh: self.mesh, vertex_index: info.half_edge1.vertex_index },
        ]
    }

    /// Cursors on the face links stored on the edge's two sides (invalid
    /// cursors while face linkage has not been populated).
    pub fn faces(&self) -> (r: Vec<FaceRef<'a, V, E, F>>)
        requires
            self.spec_mesh().valid_edge(self.spec_index()),
        ensures
            r@.len() == 2,
            r@[0].spec_mesh() == self.spec_mesh(),
            r@[1].spec_mesh() == self.spec_mesh(),
            r@[0].spec_index() == self.spec_mesh().edge_face(self.spec_index(), 0),
            r@[1].spec_index() == self.spec_mesh().edge_face(self.spec_index(), 1),
    {
        let info = &self.mesh.edges[self.edge_index as usize];
        vec![
            FaceRef { mesh: self.mesh, face_index: info.half_edge0.next_face_index },
            FaceRef { mesh: self.mesh, face_index: info.half_edge1.next_face_index },
        ]
    }

    /// The edge record this cursor points at, absent if invalid.
    fn edge_info(&self) -> (r: Option<&'a EdgeInfo<E>>)
        ensures
            match r {
                Some(info) => self.spec_is_valid() && *info
                    == self.spec_mesh().edges@[self.spec_index()],
                None => !self.spec_is_valid(),
            },
    {
        self.mesh.edge_info(self.edge_index)
    }
}

/*
 * Face cursors
 */

/// A read cursor: a (mesh, index) pair giving access to one face.
#[derive(Clone)]
pub struct FaceRef<'a, V, E, F> {
    mesh: &'a Mesh<V, E, F>,
    face_index: Index,
}

impl<'a, V, E, F> FaceRef<'a, V, E, F> {
    /// The mesh this cursor reads.
    pub closed spec fn spec_mesh(self) -> Mesh<V, E, F> {
        *self.mesh
    }

    /// The index this cursor points at.
    pub closed spec fn spec_index(self) -> int {
        self.face_index as int
    }

    /// Whether this cursor points at a live face.
    pub open spec fn spec_is_valid(self) -> bool {
        self.spec_index() < SENTINEL as int && self.spec_mesh().valid_face(self.spec_index())
    }

    /// The index this cursor points at.
    pub fn index(&self) -> (r: Index)
        ensures
            r as int == self.spec_index(),
    {
        self.face_index
    }

    /// Whether this cursor points at a live face.
    pub fn is_valid(&self) -> (r: bool)
        ensures
            r == self.spec_is_valid(),
    {
        self.mesh.is_valid_face_index(self.face_index)
    }

    /// The face's payload.
    pub fn data(&self) -> (r: &'a F)
        requires
            self.spec_mesh().valid_face(self.spec_index()),
        ensures
            *r == self.spec_mesh().face_payload(self.spec_index()),
    {
        &self.face_info().data
    }

    /// An iterator rooted at the face's boundary entry edge. Walking the
    /// boundary is not defined while face linkage has not been populated, so
    /// the iterator only records its starting position.
    pub fn edge_iter(&self) -> (it: FaceEdgeIterator<'a, V, E, F>)
        requires
            self.spec_mesh().wf(),
            self.spec_mesh().valid_face(self.spec_index()),
        ensures
            it.spec_mesh() == self.spec_mesh(),
            it.spec_face() == self.spec_index(),
            it.spec_start_edge() == self.spec_mesh().face_base_edge(self.spec_index()),
            it.spec_current_edge() == self.spec_mesh().face_base_edge(self.spec_index()),
    {
        let edge_index = self.face_info().base_edge_index;
        FaceEdgeIterator {
            mesh: self.mesh,
            face_index: self.face_index,
            start_edge_index: edge_index,
            current_edge_index: edge_index,
        }
    }

    /// The face record this cursor points at.
    fn face_info(&self) -> (r: &'a FaceInfo<F>)
        requires
            self.spec_mesh().valid_face(self.spec_index()),
        ensures
            *r == self.spec_mesh().faces@[self.spec_index()],
    {
        &self.mesh.faces[self.face_index as usize]
    }
}

/*
 * Face traversal stubs
 */

/// An iterator over the edges on a face's boundary. Only construction is
/// offered: the boundary walk cannot be defined while the topology builder
/// leaves face linkage unpopulated.
#[derive(Clone)]
pub struct FaceEdgeIterator<'a, V, E, F> {
    mesh: &'a Mesh<V, E, F>,
    face_index: Index,
    start_edge_index: Index,
    current_edge_index: Index,
}

impl<'a, V, E, F> FaceEdgeIterator<'a, V, E, F> {
    /// The mesh this iterator reads.
    pub closed spec fn spec_mesh(self) -> Mesh<V, E, F> {
        *self.mesh
    }

    /// The face whose boundary this iterator is rooted at.
    pub closed spec fn spec_face(self) -> int {
        self.face_index as int
    }

    /// The boundary entry edge.
    pub closed spec fn spec_start_edge(self) -> int {
        self.start_edge_index as int
    }

    /// The iterator's current edge.
    pub closed spec fn spec_current_edge(self) -> int {
        self.current_edge_index as int
    }
}

/// An iterator over the vertices on a face's boundary, composed on the
/// face's edge iterator; like it, only a rooted position with no defined
/// walk.
#[derive(Clone)]
pub struct FaceVertexIterator<'a, V, E, F> {
    edge_iter: FaceEdgeIterator<'a, V, E, F>,
}

impl<'a, V, E, F> FaceVertexIterator<'a, V, E, F> {
    /// The underlying boundary edge iterator.
    pub closed spec fn spec_edge_iter(self) -> FaceEdgeIterator<'a, V, E, F> {
        self.edge_iter
    }

    /// Creates a vertex iterator over the boundary walked by `edge_iter`.
    pub fn new(edge_iter: FaceEdgeIterator<'a, V, E, F>) -> (r: Self)
        ensures
            r.spec_edge_iter() == edge_iter,
    {
        FaceVertexIterator { edge_iter }
    }
}

/*
 * Arena-order iterators
 */

/// A lazy, restartable iterator over all vertices, in ascending index order.
#[derive(Clone)]
pub struct MeshVertexIterator<'a, V, E, F> {
    mesh: &'a Mesh<V, E, F>,
    vertex_index: Index,
}

impl<'a, V, E, F> MeshVertexIterator<'a, V, E, F> {
    /// The mesh this iterator reads.
    pub closed spec fn spec_mesh(self) -> Mesh<V, E, F> {
        *self.mesh
    }

    /// The index the iterator stands on.
    pub closed spec fn spec_index(self) -> int {
        self.vertex_index as int
    }

    /// Yields a cursor on the vertex at the current index, or `None` once
    /// past the end of the arena.
    pub fn next(&mut self) -> (r: Option<VertexRef<'a, V, E, F>>)
        requires
            old(self).spec_mesh().wf(),
        ensures
            final(self).spec_mesh() == old(self).spec_mesh(),
            old(self).spec_index() < old(self).spec_mesh().vertex_count() ==> final(self).spec_index() == old(self).spec_index() + 1 && (match r {
                Some(vr) => vr.spec_mesh() == old(self).spec_mesh() && vr.spec_index() == old(
                    self,
                ).spec_index() && vr.spec_is_valid(),
                None => false,
            }),
            old(self).spec_index() >= old(self).spec_mesh().vertex_count() ==> final(self).spec_index() == old(self).spec_index() && r is None,
    {
        if self.mesh.is_valid_vertex_index(self.vertex_index) {
            let ret = VertexRef { mesh: self.mesh, vertex_index: self.vertex_index };
            self.vertex_index = self.vertex_index + 1;
            return Some(ret);
        }
        return None;
    }
}

/// A lazy, restartable iterator over all edges, in ascending index order.
#[derive(Clone)]
pub struct MeshEdgeIterator<'a, V, E, F> {
    mesh: &'a Mesh<V, E, F>,
    edge_index: Index,
}

impl<'a, V, E, F> MeshEdgeIterator<'a, V, E, F> {
    /// The mesh this iterator reads.
    pub closed spec fn spec_mesh(self) -> Mesh<V, E, F> {
        *self.mesh
    }

    /// The index the iterator stands on.
    pub closed spec fn spec_index(self) -> int {
        self.edge_index as int
    }

    /// Yields a cursor on the edge at the current index, or `None` once past
    /// the end of the arena.
    pub fn next(&mut self) -> (r: Option<EdgeRef<'a, V, E, F>>)
        requires
            old(self).spec_mesh().wf(),
        ensures
            final(self).spec_mesh() == old(self).spec_mesh(),
            old(self).spec_index() < old(self).spec_mesh().edge_count() ==> final(self).spec_index() == old(self).spec_index() + 1 && (match r {
                Some(er) => er.spec_mesh() == old(self).spec_mesh() && er.spec_index() == old(
                    self,
                ).spec_index() && er.spec_is_valid(),
                None => false,
            }),
            old(self).spec_index() >= old(self).spec_mesh().edge_count() ==> final(self).spec_index() == old(self).spec_index() && r is None,
    {
        if self.mesh.is_valid_edge_index(self.edge_index) {
            let ret = EdgeRef { mesh: self.mesh, edge_index: self.edge_index };
            self.edge_index = self.edge_index + 1;
            return Some(ret);
        }
        return None;
    }
}

/// A lazy, restartable iterator over all faces, in ascending index order.
#[derive(Clone)]
pub struct MeshFaceIterator<'a, V, E, F> {
    mesh: &'a Mesh<V, E, F>,
    face_index: Index,
}

impl<'a, V, E, F> MeshFaceIterator<'a, V, E, F> {
    /// The mesh this iterator reads.
    pub closed spec fn spec_mesh(self) -> Mesh<V, E, F> {
        *self.mesh
    }

    /// The index the iterator stands on.
    pub closed spec fn spec_index(self) -> int {
        self.face_index as int
    }

    /// Yields a cursor on the face at the current index, or `None` once past
    /// the end of the arena.
    pub fn next(&mut self) -> (r: Option<FaceRef<'a, V, E, F>>)
        requires
            old(self).spec_mesh().wf(),
        ensures
            final(self).spec_mesh() == old(self).spec_mesh(),
            old(self).spec_index() < old(self).spec_mesh().face_count() ==> final(self).spec_index() == old(self).spec_index() + 1 && (match r {
                Some(fr) => fr.spec_mesh() == old(self).spec_mesh() && fr.spec_index() == old(
                    self,
                ).spec_index() && fr.spec_is_valid(),
                None => false,
            }),
            old(self).spec_index() >= old(self).spec_mesh().face_count() ==> final(self).spec_index() == old(self).spec_index() && r is None,
    {
        if self.mesh.is_valid_face_index(self.face_index) {
            let ret = FaceRef { mesh: self.mesh, face_index: self.face_index };
            self.face_index = self.face_index + 1;
            return Some(ret);
        }
        return None;
    }
}

/*
 * Write-capable cursors
 */

/// A write-capable cursor on one vertex: it borrows the mesh exclusively for
/// its lifetime, so no other cursor can observe a half-written state.
pub struct MutVertexRef<'a, V, E, F> {
    mesh: &'a mut Mesh<V, E, F>,
    vertex_index: Index,
}

impl<'a, V, E, F> MutVertexRef<'a, V, E, F> {
    /// The mesh this cursor currently holds.
    pub closed spec fn spec_mesh(self) -> Mesh<V, E, F> {
        *self.mesh
    }

    /// The index this cursor points at.
    pub closed spec fn spec_index(self) -> int {
        self.vertex_index as int
    }

    /// Whether this cursor points at a live vertex.
    pub open spec fn spec_is_valid(self) -> bool {
        self.spec_index() < SENTINEL as int && self.spec_mesh().valid_vertex(self.spec_index())
    }

    /// Creates a write-capable cursor on `index` in `mesh`.
    pub fn new(mesh: &'a mut Mesh<V, E, F>, index: Index) -> (r: Self)
        ensures
            r.spec_mesh() == *old(mesh),
            r.spec_index() == index as int,
    {
        MutVertexRef { mesh, vertex_index: index }
    }

    /// The mesh this cursor holds.
    pub fn mesh(&self) -> (r: &Mesh<V, E, F>)
        ensures
            *r == self.spec_mesh(),
    {
        &*self.mesh
    }

    /// The index this cursor points at.
    pub fn index(&self) -> (r: Index)
        ensures
            r as int == self.spec_index(),
    {
        self.vertex_index
    }

    /// Whether this cursor points at a live vertex.
    pub fn is_valid(&self) -> (r: bool)
        ensures
            r == self.spec_is_valid(),
    {
        self.mesh.is_valid_vertex_index(self.vertex_index)
    }

    /// The vertex's payload, absent if the cursor is invalid.
    pub fn data(&self) -> (r: Option<&V>)
        ensures
            match r {
                Some(d) => self.spec_is_valid() && *d == self.spec_mesh().vertex_payload(
                    self.spec_index(),
                ),
                None => !self.spec_is_valid(),
            },
    {
        if self.is_valid() {
            return Some(&self.mesh.verts[self.vertex_index as usize].data);
        }
        return None;
    }

    /// Write accessor: replaces the vertex's payload and reports whether a
    /// write happened (it does not on an invalid cursor). Nothing else of the
    /// mesh changes.
    pub fn set_data(&mut self, data: V) -> (r: bool)
        ensures
            r == old(self).spec_is_valid(),
            final(self).spec_index() == old(self).spec_index(),
            !r ==> final(self).spec_mesh() == old(self).spec_mesh(),
            r ==> ({
                let m0 = old(self).spec_mesh();
                let m1 = final(self).spec_mesh();
                let vi = old(self).spec_index();
                &&& m1.vertex_count() == m0.vertex_count()
                &&& m1.edge_count() == m0.edge_count()
                &&& m1.face_count() == m0.face_count()
                &&& m1.vertex_payload(vi) == data
                &&& (forall|u: int|
                    m0.valid_vertex(u) && u != vi ==> #[trigger] m1.vertex_payload(u)
                        == m0.vertex_payload(u))
                &&& (forall|u: int|
                    m0.valid_vertex(u) ==> #[trigger] m1.base_edge(u) == m0.base_edge(u))
                &&& (forall|u: int| #[trigger] m1.ring(u) == m0.ring(u))
                &&& (forall|ee: int|
                    m0.valid_edge(ee) ==> #[trigger] m1.edge_payload(ee) == m0.edge_payload(ee))
                &&& (forall|ee: int, side: int|
                    m0.valid_edge(ee) ==> #[trigger] m1.edge_vertex(ee, side) == m0.edge_vertex(
                        ee,
                        side,
                    ) && #[trigger] m1.edge_face(ee, side) == m0.edge_face(ee, side))
                &&& (forall|f: int|
                    m0.valid_face(f) ==> #[trigger] m1.face_payload(f) == m0.face_payload(f)
                        && #[trigger] m1.face_base_edge(f) == m0.face_base_edge(f))
                &&& (m0.wf() ==> m1.wf())
            }),
    {
        if self.is_valid() {
            let i = self.vertex_index;
            self.mesh.verts[i as usize].data = data;
            proof {
                let m0 = old(self).spec_mesh();
                let m1 = self.spec_mesh();
                assert(m1.edges@ == m0.edges@);
                assert forall|u: int| #[trigger] m1.ring(u) == m0.ring(u) by {
                    m0.lemma_ring_up_to_stable(m1, u, m0.edge_count());
                }
                if m0.wf() {
                    assert forall|ee: int, side: int| #[trigger] m1.edge_vertex(ee, side)
                        == m0.edge_vertex(ee, side) by {}
                    assert forall|f: int| #[trigger] m1.face_base_edge(f) == m0.face_base_edge(
                        f,
                    ) by {}
                    assert forall|u: int| m1.valid_vertex(u) implies #[trigger] m1.ring_ok(u) by {
                        assert(m0.ring_ok(u));
                        assert(m1.base_edge(u) == m0.base_edge(u));
                        assert forall|e: int| m0.ring(u).contains(e) implies #[trigger] m1.next_in_ring(
                            e,
                            u,
                        ) == m0.next_in_ring(e, u) && m1.prev_in_ring(e, u) == m0.prev_in_ring(
                            e,
                            u,
                        ) by {}
                        m0.lemma_ring_ok_transfer(m1, u);
                    }
                    assert(m1.wf());
                }
            }
            return true;
        }
        return false;
    }
}

/// A write-capable cursor on one edge: it borrows the mesh exclusively for
/// its lifetime, so no other cursor can observe a half-written state.
pub struct MutEdgeRef<'a, V, E, F> {
    mesh: &'a mut Mesh<V, E, F>,
    edge_index: Index,
}

impl<'a, V, E, F> MutEdgeRef<'a, V, E, F> {
    /// The mesh this cursor currently holds.
    pub closed spec fn spec_mesh(self) -> Mesh<V, E, F> {
        *self.mesh
    }

    /// The index this cursor points at.
    pub closed spec fn spec_index(self) -> int {
        self.edge_index as int
    }

    /// Whether this cursor points at a live edge.
    pub open spec fn spec_is_valid(self) -> bool {
        self.spec_index() < SENTINEL as int && self.spec_mesh().valid_edge(self.spec_index())
    }

    /// Creates a write-capable cursor on `index` in `mesh`.
    pub fn new(mesh: &'a mut Mesh<V, E, F>, index: Index) -> (r: Self)
        ensures
            r.spec_mesh() == *old(mesh),
            r.spec_index() == index as int,
    {
        MutEdgeRef { mesh, edge_index: index }
    }

    /// The index this cursor points at.
    pub fn index(&self) -> (r: Index)
        ensures
            r as int == self.spec_index(),
    {
        self.edge_index
    }

    /// Whether this cursor points at a live edge.
    pub fn is_valid(&self) -> (r: bool)
        ensures
            r == self.spec_is_valid(),
    {
        self.mesh.is_valid_edge_index(self.edge_index)
    }

    /// The edge's payload, absent if the cursor is invalid.
    pub fn data(&self) -> (r: Option<&E>)
        ensures
            match r {
                Some(d) => self.spec_is_valid() && *d == self.spec_mesh().edge_payload(
                    self.spec_index(),
                ),
                None => !self.spec_is_valid(),
            },
    {
        if self.is_valid() {
            return Some(&self.mesh.edges[self.edge_index as usize].data);
        }
        return None;
    }

    /// Write accessor: replaces the edge's payload and reports whether a
    /// write happened (it does not on an invalid cursor). Nothing else of the
    /// mesh changes.
    pub fn set_data(&mut self, data: E) -> (r: bool)
        ensures
            r == old(self).spec_is_valid(),
            final(self).spec_index() == old(self).spec_index(),
            !r ==> final(self).spec_mesh() == old(self).spec_mesh(),
            r ==> ({
                let m0 = old(self).spec_mesh();
                let m1 = final(self).spec_mesh();
                let ei = old(self).spec_index();
                &&& m1.vertex_count() == m0.vertex_count()
                &&& m1.edge_count() == m0.edge_count()
                &&& m1.face_count() == m0.face_count()
                &&& m1.edge_payload(ei) == data
                &&& (forall|ee: int|
                    m0.valid_edge(ee) && ee != ei ==> #[trigger] m1.edge_payload(ee)
                        == m0.edge_payload(ee))
                &&& (forall|ee: int, side: int|
                    m0.valid_edge(ee) ==> #[trigger] m1.edge_vertex(ee, side) == m0.edge_vertex(
                        ee,
                        side,
                    ) && #[trigger] m1.edge_face(ee, side) == m0.edge_face(ee, side))
                &&& (forall|u: int| #[trigger] m1.ring(u) == m0.ring(u))
                &&& (forall|u: int|
                    m0.valid_vertex(u) ==> #[trigger] m1.vertex_payload(u) == m0.vertex_payload(u)
                        && #[trigger] m1.base_edge(u) == m0.base_edge(u))
                &&& (forall|f: int|
                    m0.valid_face(f) ==> #[trigger] m1.face_payload(f) == m0.face_payload(f)
                        && #[trigger] m1.face_base_edge(f) == m0.face_base_edge(f))
                &&& (m0.wf() ==> m1.wf())
            }),
    {
        if self.is_valid() {
            let i = self.edge_index;
            let ghost ei = i as int;
            self.mesh.edges[i as usize].data = data;
            proof {
                let m0 = old(self).spec_mesh();
                let m1 = self.spec_mesh();
                assert forall|ee: int, side: int| 0 <= ee < m0.edge_count() implies #[trigger] m1.edge_vertex(
                    ee,
                    side,
                ) == m0.edge_vertex(ee, side) by {}
                assert forall|u: int| #[trigger] m1.ring(u) == m0.ring(u) by {
                    assert forall|ee: int|
                        0 <= ee < m0.edge_count() implies #[trigger] m1.is_incident(ee, u)
                        == m0.is_incident(ee, u) by {
                        assert(m1.edge_vertex(ee, 0) == m0.edge_vertex(ee, 0));
                        assert(m1.edge_vertex(ee, 1) == m0.edge_vertex(ee, 1));
                    }
                    m0.lemma_ring_up_to_stable(m1, u, m0.edge_count());
                }
                if m0.wf() {
                    assert forall|f: int| #[trigger] m1.face_base_edge(f) == m0.face_base_edge(
                        f,
                    ) by {}
                    assert forall|u: int| m1.valid_vertex(u) implies #[trigger] m1.ring_ok(u) by {
                        assert(m0.ring_ok(u));
                        m0.lemma_ring_up_to_props(u, m0.edge_count());
                        assert forall|e: int| m0.ring(u).contains(e) implies #[trigger] m1.next_in_ring(
                            e,
                            u,
                        ) == m0.next_in_ring(e, u) && m1.prev_in_ring(e, u) == m0.prev_in_ring(
                            e,
                            u,
                        ) by {
                            assert(0 <= e < m0.edge_count() && m0.is_incident(e, u));
                        }
                        m0.lemma_ring_ok_transfer(m1, u);
                    }
                    assert(m1.wf());
                }
            }
            return true;
        }
        return false;
    }
}

} // verus!
