use wedge::index::{index_to_option, IndexType, Index, SENTINEL};
use wedge::mesh::{Mesh, MeshError};

#[test]
fn test_new() {
    let _l: Mesh<(), (), ()> = Mesh::new();
}

#[test]
fn test_add_verts() {
    let mut mesh: Mesh<u32, (), ()> = Mesh::new();
    mesh.add_vertex(5);
    mesh.add_vertex(11);
    mesh.add_vertex(15);
    assert_eq!(*mesh.vertex(0).data().unwrap(), 5);
    assert_eq!(*mesh.vertex(1).data().unwrap(), 11);
    assert_eq!(*mesh.vertex(2).data().unwrap(), 15);
}

#[test]
fn test_mesh_vert_iterator() {
    let mut mesh: Mesh<u32, (), ()> = Mesh::new();
    mesh.add_vertex(5);
    mesh.add_vertex(11);
    mesh.add_vertex(15);
    let expect = vec![5, 11, 15];
    let mut i = 0;
    let mut it = mesh.vertex_iter();
    while let Some(v) = it.next() {
        assert_eq!(*v.data().unwrap(), expect[i]);
        i += 1;
    }
    assert_eq!(i, 3);
}

#[test]
fn test_add_basic_edge() {
    let mut mesh: Mesh<u32, f32, ()> = Mesh::new();
    let v1 = mesh.add_vertex(5);
    let v2 = mesh.add_vertex(11);
    let v3 = mesh.add_vertex(15);
    let v4 = mesh.add_vertex(22);
    mesh.add_edge(5.5, v1, v2).unwrap();
    mesh.add_edge(3.1, v2, v3).unwrap();
    mesh.add_edge(2.2, v3, v1).unwrap();
    mesh.add_edge(1.1, v1, v4).unwrap();
    let expect = vec![5.5, 3.1, 2.2, 1.1];
    let mut i = 0;
    let mut it = mesh.edge_iter();
    while let Some(e) = it.next() {
        assert_eq!(*e.data().unwrap(), expect[i]);
        i += 1;
    }
    assert_eq!(i, 4);

    // Check that v1 has the right edges.
    let expect_2 = vec![0, 2, 3];
    i = 0;
    let mut edges = mesh.vertex(v1).edge_iter();
    while let Some(e) = edges.next() {
        assert_eq!(e.index(), expect_2[i]);
        i += 1;
    }
}

/// The i-th `add_vertex` call returns index i, and `vertex_iter` yields the
/// payloads back in that order.
#[test]
fn test_vertex_indices_in_creation_order() {
    let mut mesh: Mesh<u32, (), ()> = Mesh::new();
    assert_eq!(mesh.add_vertex(5), 0);
    assert_eq!(mesh.add_vertex(11), 1);
    assert_eq!(mesh.add_vertex(15), 2);
    assert_eq!(mesh.add_vertex(22), 3);
    let mut seen: Vec<u32> = Vec::new();
    let mut it = mesh.vertex_iter();
    while let Some(v) = it.next() {
        seen.push(*v.data().unwrap());
    }
    assert_eq!(seen, vec![5, 11, 15, 22]);
}

/// Round trip: the edge created by `add_edge(payload, v1, v2)` reports the
/// endpoint set {v1, v2} and hands the payload back.
#[test]
fn test_edge_round_trip() {
    let mut mesh: Mesh<u32, u64, ()> = Mesh::new();
    let v1 = mesh.add_vertex(5);
    let v2 = mesh.add_vertex(11);
    let idx = mesh.add_edge(77, v1, v2).unwrap();
    let edge = mesh.edge(idx);
    assert_eq!(*edge.data().unwrap(), 77);
    let ends = edge.vertices();
    assert_eq!(ends.len(), 2);
    let mut pair = vec![ends[0].index(), ends[1].index()];
    pair.sort();
    let mut expect = vec![v1, v2];
    expect.sort();
    assert_eq!(pair, expect);
}

/// The incident-edge iterator yields each incident edge exactly once, every
/// yielded edge has the vertex as an endpoint, and a second pass yields the
/// same sequence (restartability).
#[test]
fn test_vertex_edge_iterator_distinct_and_restartable() {
    let mut mesh: Mesh<u32, u32, ()> = Mesh::new();
    let v0 = mesh.add_vertex(0);
    let v1 = mesh.add_vertex(1);
    let v2 = mesh.add_vertex(2);
    let v3 = mesh.add_vertex(3);
    mesh.add_edge(10, v0, v1).unwrap();
    mesh.add_edge(11, v1, v2).unwrap();
    mesh.add_edge(12, v2, v0).unwrap();
    mesh.add_edge(13, v0, v3).unwrap();

    let mut first: Vec<Index> = Vec::new();
    let mut it = mesh.vertex(v0).edge_iter();
    while let Some(e) = it.next() {
        // every yielded edge has v0 as an endpoint
        let ends = e.vertices();
        assert!(ends[0].index() == v0 || ends[1].index() == v0);
        first.push(e.index());
    }
    // exactly the three incident edges, each exactly once
    assert_eq!(first.len(), 3);
    let mut sorted = first.clone();
    sorted.sort();
    sorted.dedup();
    assert_eq!(sorted, vec![0, 2, 3]);

    // a fresh iterator yields the same sequence
    let mut second: Vec<Index> = Vec::new();
    let mut it2 = mesh.vertex(v0).edge_iter();
    while let Some(e) = it2.next() {
        second.push(e.index());
    }
    assert_eq!(first, second);
}

/// Ring closure: a vertex with k incident edges yields exactly k cursors,
/// starting at the base edge, and asking further never reveals a new edge.
#[test]
fn test_ring_closure() {
    let mut mesh: Mesh<(), u32, ()> = Mesh::new();
    let v0 = mesh.add_vertex(());
    let v1 = mesh.add_vertex(());
    let v2 = mesh.add_vertex(());
    mesh.add_edge(0, v0, v1).unwrap();
    mesh.add_edge(1, v0, v2).unwrap();
    mesh.add_edge(2, v1, v2).unwrap();
    mesh.add_edge(3, v2, v0).unwrap();

    // v0 has incident edges 0, 1, 3
    let mut it = mesh.vertex(v0).edge_iter();
    let start = it.start_edge().unwrap().index();
    let first = it.next().unwrap().index();
    assert_eq!(start, first);
    assert_eq!(first, 0);
    let mut count = 1;
    while let Some(_) = it.next() {
        count += 1;
    }
    assert_eq!(count, 3);
    // exhausted for good: k+1 asks reveal nothing new
    assert!(it.next().is_none());
    assert!(it.next().is_none());
}

/// Self-loop: `add_edge(p, v, v)` succeeds and the vertex's iterator yields
/// the loop exactly once, not twice.
#[test]
fn test_self_loop_once() {
    let mut mesh: Mesh<u32, u32, ()> = Mesh::new();
    let v0 = mesh.add_vertex(0);
    let v1 = mesh.add_vertex(1);
    mesh.add_edge(50, v0, v1).unwrap();
    let loop_idx = mesh.add_edge(99, v0, v0).unwrap();
    assert_eq!(loop_idx, 1);

    let mut seen: Vec<Index> = Vec::new();
    let mut it = mesh.vertex(v0).edge_iter();
    while let Some(e) = it.next() {
        seen.push(e.index());
    }
    assert_eq!(seen.iter().filter(|&&e| e == loop_idx).count(), 1);
    assert_eq!(seen.len(), 2);

    // both endpoints of the loop are v0
    let ends = mesh.edge(loop_idx).vertices();
    assert_eq!(ends[0].index(), v0);
    assert_eq!(ends[1].index(), v0);
}

/// A self-loop on an otherwise isolated vertex forms a ring of one.
#[test]
fn test_self_loop_isolated() {
    let mut mesh: Mesh<(), u32, ()> = Mesh::new();
    let v0 = mesh.add_vertex(());
    let loop_idx = mesh.add_edge(7, v0, v0).unwrap();
    let mut it = mesh.vertex(v0).edge_iter();
    assert_eq!(it.next().unwrap().index(), loop_idx);
    assert!(it.next().is_none());
}

/// Invalid reference: an out-of-range endpoint is rejected and the mesh is
/// left unchanged.
#[test]
fn test_add_edge_invalid_reference() {
    let mut mesh: Mesh<u32, u32, ()> = Mesh::new();
    let v0 = mesh.add_vertex(5);
    let v1 = mesh.add_vertex(11);
    assert_eq!(mesh.add_edge(42, v0, 9999), Err(MeshError::InvalidReference));
    assert_eq!(mesh.add_edge(42, 9999, v1), Err(MeshError::InvalidReference));
    // no edge was created and no ring was touched
    assert!(!mesh.is_valid_edge_index(0));
    let mut it = mesh.edge_iter();
    assert!(it.next().is_none());
    let mut ring = mesh.vertex(v0).edge_iter();
    assert!(ring.next().is_none());
    assert_eq!(*mesh.vertex(v0).data().unwrap(), 5);
    assert_eq!(*mesh.vertex(v1).data().unwrap(), 11);
}

/// Concrete scenario: vertices 5, 11, 15, 22 get indices 0..3; the four
/// edges get indices 0..3; vertex 0's incident edges are exactly {0, 2, 3}.
#[test]
fn test_concrete_scenario() {
    let mut mesh: Mesh<u32, f64, ()> = Mesh::new();
    assert_eq!(mesh.add_vertex(5), 0);
    assert_eq!(mesh.add_vertex(11), 1);
    assert_eq!(mesh.add_vertex(15), 2);
    assert_eq!(mesh.add_vertex(22), 3);
    assert_eq!(mesh.add_edge(5.5, 0, 1), Ok(0));
    assert_eq!(mesh.add_edge(3.1, 1, 2), Ok(1));
    assert_eq!(mesh.add_edge(2.2, 2, 0), Ok(2));
    assert_eq!(mesh.add_edge(1.1, 0, 3), Ok(3));

    let mut seen: Vec<Index> = Vec::new();
    let mut it = mesh.vertex(0).edge_iter();
    while let Some(e) = it.next() {
        seen.push(e.index());
    }
    let mut set = seen.clone();
    set.sort();
    set.dedup();
    assert_eq!(set, vec![0, 2, 3]);
    assert_eq!(seen.len(), 3);
}

/// An iterator built on an invalid vertex is immediately exhausted.
#[test]
fn test_invalid_vertex_iterator_empty() {
    let mut mesh: Mesh<u32, u32, ()> = Mesh::new();
    mesh.add_vertex(1);
    let mut it = mesh.vertex(9999).edge_iter();
    assert!(it.next().is_none());
    assert!(mesh.vertex(9999).data().is_none());
    assert!(!mesh.vertex(9999).is_valid());
    let mut faces = mesh.vertex(9999).face_iter();
    assert!(faces.next().is_none());
}

/// While the builder leaves face linkage unpopulated, face links resolved
/// from a vertex are absent references, one per incident edge.
#[test]
fn test_vertex_face_iterator_unpopulated() {
    let mut mesh: Mesh<u32, u32, ()> = Mesh::new();
    let v0 = mesh.add_vertex(0);
    let v1 = mesh.add_vertex(1);
    mesh.add_edge(10, v0, v1).unwrap();
    mesh.add_edge(11, v0, v1).unwrap();
    let mut count = 0;
    let mut it = mesh.vertex(v0).face_iter();
    while let Some(f) = it.next() {
        assert!(!f.is_valid());
        count += 1;
    }
    assert_eq!(count, 2);
    // the edge cursors also report two absent face links each
    let faces = mesh.edge(0).faces();
    assert_eq!(faces.len(), 2);
    assert!(!faces[0].is_valid());
    assert!(!faces[1].is_valid());
}

/// The face arena starts empty and its iterator yields nothing.
#[test]
fn test_face_iter_empty() {
    let mesh: Mesh<(), (), u32> = Mesh::new();
    let mut it = mesh.face_iter();
    assert!(it.next().is_none());
    assert!(!mesh.is_valid_face_index(0));
    assert!(!mesh.face(0).is_valid());
}

/// The edge iterator of the vertex-edge walk exposes its vertex and ring
/// entry edge.
#[test]
fn test_vertex_edge_iterator_accessors() {
    let mut mesh: Mesh<u32, u32, ()> = Mesh::new();
    let v0 = mesh.add_vertex(0);
    let v1 = mesh.add_vertex(1);
    let e0 = mesh.add_edge(10, v0, v1).unwrap();
    let it = mesh.vertex(v0).edge_iter();
    assert_eq!(it.vertex().index(), v0);
    assert_eq!(it.start_edge().unwrap().index(), e0);
    // an isolated vertex has no start edge
    let v2 = mesh.add_vertex(2);
    let it2 = mesh.vertex(v2).edge_iter();
    assert!(it2.start_edge().is_none());
}

/// Write-capable cursors replace payloads in place and reject invalid
/// indices.
#[test]
fn test_mut_cursors_set_data() {
    let mut mesh: Mesh<u32, u32, ()> = Mesh::new();
    let v0 = mesh.add_vertex(5);
    let v1 = mesh.add_vertex(6);
    let e0 = mesh.add_edge(10, v0, v1).unwrap();

    let mut vc = mesh.vertex_mut(v0);
    assert!(vc.is_valid());
    assert_eq!(*vc.data().unwrap(), 5);
    assert!(vc.set_data(50));
    assert_eq!(*mesh.vertex(v0).data().unwrap(), 50);

    let mut bad = mesh.vertex_mut(9999);
    assert!(!bad.set_data(1));

    let mut ec = wedge::mesh::MutEdgeRef::new(&mut mesh, e0);
    assert_eq!(*ec.data().unwrap(), 10);
    assert!(ec.set_data(20));
    assert_eq!(*mesh.edge(e0).data().unwrap(), 20);

    // the topology is untouched by payload writes
    let mut it = mesh.vertex(v0).edge_iter();
    assert_eq!(it.next().unwrap().index(), e0);
    assert!(it.next().is_none());
}

/// The mut vertex cursor mirrors the read cursor's accessors.
#[test]
fn test_mut_vertex_ref_accessors() {
    let mut mesh: Mesh<u32, (), ()> = Mesh::new();
    let v0 = mesh.add_vertex(5);
    let cursor = wedge::mesh::MutVertexRef::new(&mut mesh, v0);
    assert_eq!(cursor.index(), v0);
    assert!(cursor.is_valid());
    assert!(cursor.mesh().is_valid_vertex_index(v0));
    assert!(mesh.is_valid_vert_index(v0));
}

/// Raw index handles: the sentinel is not valid and maps to `None`.
#[test]
fn test_index_type_u32() {
    let five = <u32 as IndexType>::new(5);
    assert_eq!(five, 5u32);
    assert_eq!(IndexType::index(&five), 5usize);
    assert!(IndexType::is_valid(&five));
    assert_eq!(IndexType::to_option(&five), Some(5u32));
    let max = <u32 as IndexType>::max();
    assert_eq!(max, u32::MAX);
    assert!(!IndexType::is_valid(&max));
    assert_eq!(IndexType::to_option(&max), None);
}

/// The free helper maps the sentinel to `None` and anything else to `Some`.
#[test]
fn test_index_to_option() {
    assert_eq!(index_to_option(0), Some(0));
    assert_eq!(index_to_option(41), Some(41));
    assert_eq!(index_to_option(SENTINEL), None);
}

/// Cursor constructors pair a mesh with an index without validating it.
#[test]
fn test_cursor_constructors() {
    let mut mesh: Mesh<u32, u32, ()> = Mesh::new();
    let v0 = mesh.add_vertex(5);
    let v1 = mesh.add_vertex(6);
    mesh.add_edge(10, v0, v1).unwrap();
    let vr = wedge::mesh::VertexRef::new(&mesh, v0);
    assert_eq!(vr.index(), v0);
    assert_eq!(*vr.data().unwrap(), 5);
    let er = wedge::mesh::EdgeRef::new(&mesh, 0);
    assert_eq!(er.index(), 0);
    assert!(er.is_valid());
    let er_bad = wedge::mesh::EdgeRef::new(&mesh, 7);
    assert!(!er_bad.is_valid());
    assert!(er_bad.data().is_none());
    let it = wedge::mesh::VertexEdgeIterator::new(vr);
    assert_eq!(it.vertex().index(), v0);
}
