use truck_topology::edge::{Edge, TopologyError};
use truck_topology::face::{Face, Shell};
use truck_topology::store::{CellKind, LockError, Topology, Vertex};
use truck_topology::wire::Wire;

type Topo = Topology<usize, usize, usize>;

#[test]
fn clones_are_equal_fresh_values_are_not() {
    let mut topo: Topo = Topology::new();
    let v0 = Vertex::new(&mut topo, 0);
    let v1 = Vertex::new(&mut topo, 0);
    let v2 = v0.clone();
    assert_ne!(v0, v1);
    assert_eq!(v0, v2);
    assert_eq!(v0.id(), v2.id());

    let e0 = Edge::new(&mut topo, v0, v1, 5);
    let e1 = Edge::new(&mut topo, v0, v1, 5);
    assert_eq!(e0, e0.clone());
    assert_eq!(e0, e0.inverse());
    assert_ne!(e0, e1);

    let w = Wire::from_edges(vec![e0, e1.inverse()]);
    let f0 = Face::new(&mut topo, vec![w.clone_wire()], 9);
    let f1 = Face::new(&mut topo, vec![w], 9);
    assert!(f0 == f0.clone_face());
    assert!(f0 == f0.inverse());
    assert!(f0 != f1);
}

#[test]
fn news_makes_distinct_vertices() {
    let mut topo: Topo = Topology::new();
    let v = Vertex::news(&mut topo, &[7, 7, 7]);
    assert_eq!(v.len(), 3);
    assert_ne!(v[0], v[2]);
    assert_eq!(topo.points_len(), 3);
    assert_eq!(*topo.point_ref(v[1]), 7);
}

#[test]
fn try_lock_point_reports_contention() {
    let mut topo: Topo = Topology::new();
    let v0 = Vertex::new(&mut topo, 0);
    let v1 = v0;
    let g = v0.try_lock_point(&mut topo).unwrap();
    assert_eq!(v1.try_lock_point(&mut topo).err(), Some(LockError::WouldBlock));
    topo.set_point(&g, 1);
    topo.unlock(g);
    let g = v1.try_lock_point(&mut topo).unwrap();
    assert_eq!(*topo.point_ref(v0), 1);
    assert_eq!(*topo.point_ref(v1), 1);
    topo.unlock(g);
}

#[test]
fn shared_cell_mutation_is_visible_to_every_handle() {
    let mut topo: Topo = Topology::new();
    let v0 = Vertex::new(&mut topo, 0);
    let v1 = v0.clone();
    let g = v0.lock_point(&mut topo).unwrap();
    topo.set_point(&g, 2);
    topo.unlock(g);
    let g = v1.lock_point(&mut topo).unwrap();
    assert_eq!(*topo.point_ref(v1), 2);
    topo.unlock(g);
}

#[test]
fn poisoned_cell_reports_poison_until_cleared() {
    let mut topo: Topo = Topology::new();
    let v = Vertex::new(&mut topo, 3);
    let w = Vertex::new(&mut topo, 4);
    let e = Edge::new(&mut topo, v, w, 8);
    let g = e.lock_curve(&mut topo).unwrap();
    assert_eq!(g.cell_kind(), CellKind::Curve);
    assert_eq!(g.index(), e.id());
    topo.poison(g);
    assert_eq!(e.try_lock_curve(&mut topo).err(), Some(LockError::Poisoned));
    assert_eq!(e.lock_curve(&mut topo).err(), Some(LockError::Poisoned));
    assert!(v.try_lock_point(&mut topo).is_ok());
    topo.clear_poison(CellKind::Curve, e.id());
    let g = e.try_lock_curve(&mut topo).unwrap();
    topo.set_curve(&g, 80);
    topo.unlock(g);
    assert_eq!(*topo.curve_ref(e.id()), 80);
}

#[test]
fn surface_lock_and_write() {
    let mut topo: Topo = Topology::new();
    let v = Vertex::news(&mut topo, &[0, 1, 2]);
    let w = Wire::from_edges(vec![
        Edge::new(&mut topo, v[0], v[1], 0),
        Edge::new(&mut topo, v[1], v[2], 0),
        Edge::new(&mut topo, v[2], v[0], 0),
    ]);
    let f = Face::new(&mut topo, vec![w], 1);
    let g = f.try_lock_surface(&mut topo).unwrap();
    assert_eq!(f.try_lock_surface(&mut topo).err(), Some(LockError::WouldBlock));
    topo.set_surface(&g, 42);
    topo.unlock(g);
    let g = f.lock_surface(&mut topo).unwrap();
    assert_eq!(*topo.surface_ref(f.id()), 42);
    topo.unlock(g);
}

#[test]
fn edge_with_one_vertex_is_refused() {
    let mut topo: Topo = Topology::new();
    let v = Vertex::new(&mut topo, 0);
    assert_eq!(Edge::try_new(&mut topo, v, v, 1).err(), Some(TopologyError::SameVertex));
    assert_eq!(topo.curves_len(), 0);
    let w = Vertex::new(&mut topo, 1);
    let e = Edge::try_new(&mut topo, v, w, 1).unwrap();
    assert_eq!(e.front(), v);
    assert_eq!(e.inverse().front(), w);
    assert_eq!(e.absolute_front(), e.inverse().absolute_front());
}

#[test]
fn face_boundaries_are_checked() {
    let mut topo: Topo = Topology::new();
    let v = Vertex::news(&mut topo, &[0, 1, 2, 3]);
    let e01 = Edge::new(&mut topo, v[0], v[1], 0);
    let e12 = Edge::new(&mut topo, v[1], v[2], 0);
    let e20 = Edge::new(&mut topo, v[2], v[0], 0);
    let e23 = Edge::new(&mut topo, v[2], v[3], 0);
    let e30 = Edge::new(&mut topo, v[3], v[0], 0);
    let e10 = Edge::new(&mut topo, v[1], v[0], 0);

    assert_eq!(
        Face::try_new(&mut topo, vec![Wire::new()], 0).err(),
        Some(TopologyError::EmptyWire)
    );
    let open = Wire::from_edges(vec![e01, e12]);
    assert!(!open.is_closed());
    assert_eq!(
        Face::try_new(&mut topo, vec![open], 0).err(),
        Some(TopologyError::NotClosedWire)
    );
    // 0 -> 1 -> 0 -> 1 -> 2 -> 0 passes through 0 and 1 twice
    let twice = Wire::from_edges(vec![e01, e10, e01, e12, e20]);
    assert!(twice.is_closed());
    assert!(!twice.is_simple());
    assert_eq!(
        Face::try_new(&mut topo, vec![twice], 0).err(),
        Some(TopologyError::NotSimpleWire)
    );
    assert_eq!(topo.surfaces_len(), 0);

    let good = Wire::from_edges(vec![e01, e12, e23, e30]);
    assert!(good.is_simple());
    assert_eq!(good.vertices(), vec![v[0], v[1], v[2], v[3]]);
    let f = Face::try_new(&mut topo, vec![good], 5).unwrap();
    assert!(f.orientation());
    assert_eq!(f.absolute_boundaries().len(), 1);
    assert_eq!(topo.surfaces_len(), 1);
}

#[test]
fn wire_inverse_runs_backwards() {
    let mut topo: Topo = Topology::new();
    let v = Vertex::news(&mut topo, &[0, 1, 2]);
    let w = Wire::from_edges(vec![
        Edge::new(&mut topo, v[0], v[1], 0),
        Edge::new(&mut topo, v[1], v[2], 0),
    ]);
    let r = w.inverse();
    assert_eq!(r.len(), 2);
    assert_eq!(r.front_vertex(), Some(v[2]));
    assert_eq!(r.back_vertex(), Some(v[0]));
    assert_eq!(r.edge(0), w.edge(1));
    assert!(!r.edge(0).orientation());
    let mut s = w.clone_wire();
    s.invert();
    assert_eq!(s.vertices(), vec![v[2], v[1], v[0]]);
    assert!(Wire::new().is_closed());
    assert!(Wire::new().is_empty());
}

#[test]
fn shell_collects_faces() {
    let mut topo: Topo = Topology::new();
    let v = Vertex::news(&mut topo, &[0, 1, 2]);
    let w = Wire::from_edges(vec![
        Edge::new(&mut topo, v[0], v[1], 0),
        Edge::new(&mut topo, v[1], v[2], 0),
        Edge::new(&mut topo, v[2], v[0], 0),
    ]);
    let f = Face::debug_new(&mut topo, vec![w], 0);
    let mut s = Shell::new();
    s.push(f.inverse());
    s.push(f.clone_face());
    assert_eq!(s.len(), 2);
    assert!(s.face(0) == s.face(1));
    assert!(!s.face(0).orientation());
    let flipped = s.face(0).boundaries();
    assert_eq!(flipped[0].front_vertex(), Some(v[0]));
    assert_eq!(flipped[0].edge(0).front(), v[0]);
    assert_eq!(flipped[0].edge(0).back(), v[2]);
}
