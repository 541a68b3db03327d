use truck_topology::edge::Edge;
use truck_topology::face::{Face, Shell, Solid};
use truck_topology::store::{Topology, Vertex};
use truck_topology::wire::Wire;

type Topo = Topology<usize, usize, usize>;

fn point(topo: &mut Topo, v: Vertex) -> usize {
    let g = v.lock_point(topo).unwrap();
    let p = *topo.point_ref(v);
    topo.unlock(g);
    p
}

fn curve(topo: &mut Topo, e: &Edge) -> usize {
    let g = e.lock_curve(topo).unwrap();
    let c = *topo.curve_ref(e.id());
    topo.unlock(g);
    c
}

fn surface(topo: &mut Topo, f: &Face) -> usize {
    let g = f.lock_surface(topo).unwrap();
    let s = *topo.surface_ref(f.id());
    topo.unlock(g);
    s
}

fn two_boundary_face(topo: &mut Topo) -> Face {
    let v = Vertex::news(topo, &[0, 1, 2, 3, 4, 5, 6]);
    let wire0 = Wire::from_edges(vec![
        Edge::new(topo, v[0], v[1], 100),
        Edge::new(topo, v[1], v[2], 200),
        Edge::new(topo, v[2], v[3], 300),
        Edge::new(topo, v[3], v[0], 400),
    ]);
    let wire1 = Wire::from_edges(vec![
        Edge::new(topo, v[4], v[5], 500),
        Edge::new(topo, v[6], v[5], 600).inverse(),
        Edge::new(topo, v[6], v[4], 700),
    ]);
    Face::new(topo, vec![wire0, wire1], 10000)
}

#[test]
fn invert_mapped_edge() {
    let mut topo: Topo = Topology::new();
    let v0 = Vertex::new(&mut topo, 0);
    let v1 = Vertex::new(&mut topo, 1);
    let edge0 = Edge::new(&mut topo, v0, v1, 2).inverse();
    let edge1 = edge0.mapped(
        &mut topo,
        &move |i: &usize| *i + 10,
        &move |j: &usize| *j + 20,
        &usize::clone,
    );
    assert_eq!(point(&mut topo, edge1.absolute_front()), 10);
    assert_eq!(point(&mut topo, edge1.absolute_back()), 11);
    assert_eq!(edge0.orientation(), edge1.orientation());
    assert_eq!(curve(&mut topo, &edge1), 22);
}

#[test]
fn invert_mapped_face() {
    let mut topo: Topo = Topology::new();
    let face0 = two_boundary_face(&mut topo).inverse();
    let face1 = face0.mapped(
        &mut topo,
        &move |i: &usize| *i + 10,
        &move |j: &usize| *j + 1000,
        &move |k: &usize| *k + 100000,
    );

    assert_eq!(surface(&mut topo, &face0) + 100000, surface(&mut topo, &face1));
    assert_eq!(face0.orientation(), face1.orientation());
    let biters0 = face0.boundaries();
    let biters1 = face1.boundaries();
    assert_eq!(biters0.len(), biters1.len());
    for (biter0, biter1) in biters0.iter().zip(biters1.iter()) {
        assert_eq!(biter0.len(), biter1.len());
        for (edge0, edge1) in biter0.edges.iter().zip(biter1.edges.iter()) {
            assert_eq!(point(&mut topo, edge0.front()) + 10, point(&mut topo, edge1.front()));
            assert_eq!(point(&mut topo, edge0.back()) + 10, point(&mut topo, edge1.back()));
            assert_eq!(curve(&mut topo, edge0) + 1000, curve(&mut topo, edge1));
        }
    }
}

#[test]
fn mapped_vertex_point() {
    let mut topo: Topo = Topology::new();
    let v0 = Vertex::new(&mut topo, 1);
    let v1 = v0.mapped(&mut topo, &move |i: &usize| *i + 1, &usize::clone, &usize::clone);
    assert_eq!(point(&mut topo, v1), 2);
    assert_eq!(point(&mut topo, v0), 1);
    assert_ne!(v0, v1);
}

#[test]
fn mapped_edge_ends_and_curve() {
    let mut topo: Topo = Topology::new();
    let v0 = Vertex::new(&mut topo, 0);
    let v1 = Vertex::new(&mut topo, 1);
    let edge0 = Edge::new(&mut topo, v0, v1, 2);
    let edge1 = edge0.mapped(
        &mut topo,
        &move |i: &usize| *i + 10,
        &move |j: &usize| *j + 20,
        &usize::clone,
    );
    assert_eq!(point(&mut topo, edge1.front()), 10);
    assert_eq!(point(&mut topo, edge1.back()), 11);
    assert_eq!(curve(&mut topo, &edge1), 22);
    assert!(edge1.orientation());
    assert_ne!(edge0, edge1);
}

#[test]
fn mapped_wire_keeps_adjacency() {
    let mut topo: Topo = Topology::new();
    let v = Vertex::news(&mut topo, &[0, 1, 2, 3, 4]);
    let wire0 = Wire::from_edges(vec![
        Edge::new(&mut topo, v[0], v[1], 100),
        Edge::new(&mut topo, v[2], v[1], 110).inverse(),
        Edge::new(&mut topo, v[3], v[4], 120),
        Edge::new(&mut topo, v[4], v[0], 130),
    ]);
    let wire1 = wire0.mapped(
        &mut topo,
        &move |i: &usize| *i + 10,
        &move |j: &usize| *j + 1000,
        &usize::clone,
    );
    let vs0 = wire0.vertices();
    let vs1 = wire1.vertices();
    assert_eq!(vs0.len(), vs1.len());
    for (a, b) in vs0.iter().zip(vs1.iter()) {
        assert_eq!(point(&mut topo, *a) + 10, point(&mut topo, *b));
    }
    for (edge0, edge1) in wire0.edges.iter().zip(wire1.edges.iter()) {
        assert_eq!(curve(&mut topo, edge0) + 1000, curve(&mut topo, edge1));
        assert_eq!(edge0.orientation(), edge1.orientation());
    }
    assert_eq!(wire1.edge(0).back(), wire1.edge(1).front());
    assert_ne!(wire1.edge(1).back(), wire1.edge(2).front());
    assert_eq!(wire1.edge(2).back(), wire1.edge(3).front());
    assert_eq!(wire1.edge(3).back(), wire1.edge(0).front());
}

#[test]
fn mapped_wire_dedups_repeated_edge() {
    let mut topo: Topo = Topology::new();
    let v = Vertex::news(&mut topo, &[0, 1, 2]);
    let e0 = Edge::new(&mut topo, v[0], v[1], 7);
    let e1 = Edge::new(&mut topo, v[1], v[2], 8);
    let wire0 = Wire::from_edges(vec![e0, e1, e1.inverse(), e0.inverse()]);
    let curves_before = topo.curves_len();
    let wire1 = wire0.mapped(
        &mut topo,
        &move |i: &usize| *i + 1,
        &move |j: &usize| *j * 2,
        &usize::clone,
    );
    assert_eq!(topo.curves_len(), curves_before + 2);
    assert_eq!(wire1.edge(0).id(), wire1.edge(3).id());
    assert_eq!(wire1.edge(1).id(), wire1.edge(2).id());
    assert_ne!(wire1.edge(0).id(), wire1.edge(1).id());
    assert!(wire1.edge(0).orientation());
    assert!(!wire1.edge(3).orientation());
    assert_eq!(wire1.edge(0).front(), wire1.edge(3).back());
    assert_eq!(curve(&mut topo, &wire1.edge(1)), 16);
    assert_eq!(point(&mut topo, wire1.edge(2).back()), 2);
}

#[test]
fn mapped_wire_closed_and_simple() {
    let mut topo: Topo = Topology::new();
    let v = Vertex::news(&mut topo, &[0, 0, 0]);
    let wire0 = Wire::from_edges(vec![
        Edge::new(&mut topo, v[0], v[1], 1),
        Edge::new(&mut topo, v[1], v[2], 2),
        Edge::new(&mut topo, v[2], v[0], 3),
    ]);
    assert!(wire0.is_closed());
    assert!(wire0.is_simple());
    // every point goes to one value, yet the copy stays closed and simple
    let wire1 = wire0.mapped(&mut topo, &move |_: &usize| 5, &usize::clone, &usize::clone);
    assert!(wire1.is_closed());
    assert!(wire1.is_simple());
    let open = Wire::from_edges(vec![wire0.edge(0), wire0.edge(1)]);
    let open1 = open.mapped(&mut topo, &usize::clone, &usize::clone, &usize::clone);
    assert!(!open1.is_closed());
    assert!(open1.is_simple());
    assert_eq!(open1.vertices().len(), 3);
}

#[test]
fn mapped_shell_shares_edges() {
    let mut topo: Topo = Topology::new();
    let v = Vertex::news(&mut topo, &[0, 1, 2, 3]);
    let e01 = Edge::new(&mut topo, v[0], v[1], 1);
    let e12 = Edge::new(&mut topo, v[1], v[2], 2);
    let e20 = Edge::new(&mut topo, v[2], v[0], 3);
    let e03 = Edge::new(&mut topo, v[0], v[3], 4);
    let e31 = Edge::new(&mut topo, v[3], v[1], 5);
    let face0 = Face::new(&mut topo, vec![Wire::from_edges(vec![e01, e12, e20])], 10);
    let face1 = Face::new(
        &mut topo,
        vec![Wire::from_edges(vec![e01.inverse(), e03, e31])],
        20,
    );
    let shell0 = Shell::from_faces(vec![face0, face1]);
    let shell1 = shell0.mapped(
        &mut topo,
        &move |i: &usize| *i + 100,
        &move |j: &usize| *j + 1000,
        &move |k: &usize| *k + 10000,
    );
    let shared0 = shell1.face(0).boundaries[0].edge(0);
    let shared1 = shell1.face(1).boundaries[0].edge(0);
    assert_eq!(shared0, shared1);
    assert_eq!(shared0.front(), shared1.back());
    assert_ne!(shared0, e01);
    assert_eq!(curve(&mut topo, &shared0), 1001);
    assert_eq!(point(&mut topo, shared1.front()), 101);
    let f1 = shell1.face(1).clone_face();
    assert_eq!(surface(&mut topo, &f1), 10020);
    assert_eq!(
        shell1.face(0).boundaries[0].edge(0).front(),
        shell1.face(1).boundaries[0].edge(1).front()
    );
    assert_eq!(topo.curves_len(), 10);
}

#[test]
fn mapped_face_of_inverted_edge_runs_other_way() {
    let mut topo: Topo = Topology::new();
    let v = Vertex::news(&mut topo, &[3, 4]);
    let edge = Edge::new(&mut topo, v[0], v[1], 9);
    let a = edge.inverse().mapped(&mut topo, &move |i: &usize| *i * 10, &usize::clone, &usize::clone);
    let b = edge.mapped(&mut topo, &move |i: &usize| *i * 10, &usize::clone, &usize::clone).inverse();
    assert_eq!(point(&mut topo, a.front()), point(&mut topo, b.front()));
    assert_eq!(point(&mut topo, a.back()), point(&mut topo, b.back()));
    assert_eq!(point(&mut topo, a.front()), 40);
    assert_eq!(curve(&mut topo, &a), curve(&mut topo, &b));
    assert_eq!(a.orientation(), b.orientation());
}

#[test]
fn mapped_solid_maps_each_shell() {
    let mut topo: Topo = Topology::new();
    let face = two_boundary_face(&mut topo);
    let solid0 = Solid::debug_new(vec![Shell::from_faces(vec![face.inverse()])]);
    let solid1 = solid0.mapped(
        &mut topo,
        &move |i: &usize| *i + 1,
        &move |j: &usize| *j + 1,
        &move |k: &usize| *k + 1,
    );
    assert_eq!(solid1.boundaries().len(), 1);
    let f = solid1.boundaries()[0].face(0).clone_face();
    assert!(!f.orientation());
    assert_eq!(surface(&mut topo, &f), 10001);
    let e = f.boundaries[1].edge(1);
    assert_eq!(curve(&mut topo, &e), 601);
    assert_eq!(point(&mut topo, e.front()), 6);
}

#[test]
fn mapped_face_boundaries_get_their_own_cells() {
    let mut topo: Topo = Topology::new();
    let v = Vertex::news(&mut topo, &[0, 1, 2, 3, 4]);
    let e01 = Edge::new(&mut topo, v[0], v[1], 1);
    let e12 = Edge::new(&mut topo, v[1], v[2], 2);
    let e20 = Edge::new(&mut topo, v[2], v[0], 3);
    let e03 = Edge::new(&mut topo, v[0], v[3], 4);
    let e34 = Edge::new(&mut topo, v[3], v[4], 5);
    let e40 = Edge::new(&mut topo, v[4], v[0], 6);
    // both boundaries pass through v[0]
    let face = Face::debug_new(
        &mut topo,
        vec![Wire::from_edges(vec![e01, e12, e20]), Wire::from_edges(vec![e03, e34, e40])],
        0,
    );
    let image = face.mapped(&mut topo, &usize::clone, &usize::clone, &usize::clone);
    let a = image.boundaries[0].edge(0).front();
    let b = image.boundaries[1].edge(0).front();
    assert_ne!(a, b);
    assert_eq!(point(&mut topo, a), 0);
    assert_eq!(point(&mut topo, b), 0);
    assert_eq!(topo.points_len(), 5 + 6);
}

#[test]
fn mapped_solid_shells_get_their_own_cells() {
    let mut topo: Topo = Topology::new();
    let face = two_boundary_face(&mut topo);
    let solid0 = Solid::debug_new(vec![
        Shell::from_faces(vec![face.clone_face()]),
        Shell::from_faces(vec![face.inverse()]),
    ]);
    let solid1 = solid0.mapped(&mut topo, &usize::clone, &usize::clone, &usize::clone);
    let f0 = solid1.boundaries()[0].face(0).clone_face();
    let f1 = solid1.boundaries()[1].face(0).clone_face();
    assert!(f0 != f1);
    assert_ne!(f0.boundaries[0].edge(0), f1.boundaries[0].edge(0));
    assert_ne!(f0.boundaries[0].edge(0).front(), f1.boundaries[0].edge(0).front());
    assert_eq!(curve(&mut topo, &f0.boundaries[0].edge(0)), curve(&mut topo, &f1.boundaries[0].edge(0)));
    assert_eq!(surface(&mut topo, &f0), surface(&mut topo, &f1));
    assert!(f0.orientation());
    assert!(!f1.orientation());
}
