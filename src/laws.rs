use vstd::prelude::*;
use vstd::std_specs::cmp::PartialEqSpec;

use crate::edge::Edge;
use crate::face::{oriented_boundaries, same_wires, Face, Shell};
use crate::mapped::{
    edge_image, face_image, maps_to, same_sharing, shell_edge, shell_image, shell_place, wire_image,
};
use crate::store::{Topology, Vertex};
use crate::wire::Wire;

verus! {

/// The image of an edge starts at the image of its front and ends at the
/// image of its back; its curve is the mapped curve and its orientation is kept.
pub proof fn lemma_edge_image_ends<P, C, S, FP: Fn(&P) -> P, FC: Fn(&C) -> C>(
    t0: &Topology<P, C, S>,
    t1: &Topology<P, C, S>,
    e: Edge,
    r: Edge,
    fp: &FP,
    fc: &FC,
)
    requires
        edge_image(t0, t1, e, r, fp, fc),
    ensures
        maps_to(fp, t0.point(e.spec_front()), t1.point(r.spec_front())),
        maps_to(fp, t0.point(e.spec_back()), t1.point(r.spec_back())),
        maps_to(fc, t0.curve(e.curve), t1.curve(r.curve)),
        r.orientation == e.orientation,
{
}

/// Two vertices made one after the other are different vertices, whatever
/// their points: `==` on them is false even where the points are equal.
pub proof fn lemma_new_vertices_differ<P, C, S>(
    t0: &Topology<P, C, S>,
    t1: &Topology<P, C, S>,
    v1: Vertex,
    v2: Vertex,
)
    requires
        v1.id == t0.points().len(),
        t0.extended_by(t1),
        t1.points().len() > t0.points().len(),
        v2.id == t1.points().len(),
    ensures
        v1 != v2,
        !v1.eq_spec(&v2),
{
}

/// A copy of a vertex handle is equal to it.
pub proof fn lemma_vertex_copy_equal(v: Vertex, copy: Vertex)
    requires
        copy.id == v.id,
    ensures
        v.eq_spec(&copy),
        v == copy,
{
}

/// A copy of an edge or a face handle, or the handle turned round, is equal to
/// it: equality goes by the cell, not by the orientation.
pub proof fn lemma_copies_are_equal(e: Edge, f: &Face, copy: &Face)
    requires
        copy.surface == f.surface,
    ensures
        e.eq_spec(&e),
        e.eq_spec(&e.spec_inverse()),
        f.eq_spec(copy),
{
}

/// An edge that a wire holds twice, once each way, has one image, held twice,
/// and each place runs the way its source place runs.
pub proof fn lemma_wire_image_dedup<P, C, S, FP: Fn(&P) -> P, FC: Fn(&C) -> C>(
    t0: &Topology<P, C, S>,
    t1: &Topology<P, C, S>,
    w: Seq<Edge>,
    r: Seq<Edge>,
    fp: &FP,
    fc: &FC,
    i: int,
    j: int,
)
    requires
        wire_image(t0, t1, w, r, fp, fc),
        0 <= i < w.len(),
        0 <= j < w.len(),
        w[i].curve == w[j].curve,
    ensures
        r[i].curve == r[j].curve,
        r[i].start == r[j].start,
        r[i].end == r[j].end,
        r[i].orientation == w[i].orientation,
        r[j].orientation == w[j].orientation,
        t1.valid_edge(r[i]),
{
    assert(same_sharing(w[i], w[j], r[i], r[j]));
    assert(edge_image(t0, t1, w[i], r[i], fp, fc));
    assert(edge_image(t0, t1, w[j], r[j], fp, fc));
    assert(t1.valid_edge(r[j]));
}

/// Faces of a shell that share an edge are mapped to faces that share one
/// new edge.
pub proof fn lemma_shell_image_shares_edges<P, C, S, FP: Fn(&P) -> P, FC: Fn(&C) -> C, FS: Fn(&S) -> S>(
    t0: &Topology<P, C, S>,
    t1: &Topology<P, C, S>,
    s: &Shell,
    r: &Shell,
    fp: &FP,
    fc: &FC,
    fs: &FS,
    f1: int,
    b1: int,
    i1: int,
    f2: int,
    b2: int,
    i2: int,
)
    requires
        shell_image(t0, t1, s, r, fp, fc, fs),
        shell_place(s, f1, b1, i1),
        shell_place(s, f2, b2, i2),
        shell_edge(s, f1, b1, i1).curve == shell_edge(s, f2, b2, i2).curve,
    ensures
        shell_edge(r, f1, b1, i1).curve == shell_edge(r, f2, b2, i2).curve,
{
    assert(same_sharing(
        shell_edge(s, f1, b1, i1),
        shell_edge(s, f2, b2, i2),
        shell_edge(r, f1, b1, i1),
        shell_edge(r, f2, b2, i2),
    ));
}

/// Mapping an inverted edge gives the inverse of an image of the edge: front
/// and back swap, the curve is the same mapped curve.
pub proof fn lemma_edge_image_inverse<P, C, S, FP: Fn(&P) -> P, FC: Fn(&C) -> C>(
    t0: &Topology<P, C, S>,
    t1: &Topology<P, C, S>,
    e: Edge,
    r: Edge,
    fp: &FP,
    fc: &FC,
)
    requires
        edge_image(t0, t1, e.spec_inverse(), r, fp, fc),
    ensures
        edge_image(t0, t1, e, r.spec_inverse(), fp, fc),
        r.spec_front() == r.spec_inverse().spec_back(),
        r.spec_back() == r.spec_inverse().spec_front(),
{
}

/// Mapping a flipped face gives the flip of an image of the face: the same
/// boundaries and mapped surface, the other orientation.
pub proof fn lemma_face_image_inverse<P, C, S, FP: Fn(&P) -> P, FC: Fn(&C) -> C, FS: Fn(&S) -> S>(
    t0: &Topology<P, C, S>,
    t1: &Topology<P, C, S>,
    f: &Face,
    flipped: &Face,
    r: &Face,
    r_flipped: &Face,
    fp: &FP,
    fc: &FC,
    fs: &FS,
)
    requires
        same_wires(flipped.boundaries@, f.boundaries@),
        flipped.surface == f.surface,
        flipped.orientation == !f.orientation,
        face_image(t0, t1, flipped, r, fp, fc, fs),
        same_wires(r_flipped.boundaries@, r.boundaries@),
        r_flipped.surface == r.surface,
        r_flipped.orientation == !r.orientation,
    ensures
        face_image(t0, t1, f, r_flipped, fp, fc, fs),
{
    assert forall|b: int| 0 <= b < f.boundaries@.len() implies wire_image(
        t0,
        t1,
        (#[trigger] f.boundaries@[b]).edges@,
        r_flipped.boundaries@[b].edges@,
        fp,
        fc,
    ) by {
        assert(flipped.boundaries@[b].edges@ == f.boundaries@[b].edges@);
        assert(r_flipped.boundaries@[b].edges@ == r.boundaries@[b].edges@);
        assert(wire_image(t0, t1, flipped.boundaries@[b].edges@, r.boundaries@[b].edges@, fp, fc));
    }
}

/// The vertex at place `a` of the vertex sequence of a wire: the front of edge
/// `a`, or the back of the last edge past the end.
pub open spec fn vertex_at(w: Seq<Edge>, a: int) -> Vertex {
    if a < w.len() {
        w[a].spec_front()
    } else {
        w.last().spec_back()
    }
}

proof fn lemma_vertex_seq_at(w: &Wire, a: int)
    requires
        0 <= a < w.vertex_seq().len(),
    ensures
        w.vertex_seq()[a] == vertex_at(w.edges@, a),
{
}

/// Ends of two images meet exactly where the ends of their sources meet.
proof fn lemma_image_ends_meet<P, C, S, FP: Fn(&P) -> P, FC: Fn(&C) -> C>(
    t0: &Topology<P, C, S>,
    t1: &Topology<P, C, S>,
    w: Seq<Edge>,
    r: Seq<Edge>,
    fp: &FP,
    fc: &FC,
    i: int,
    j: int,
)
    requires
        wire_image(t0, t1, w, r, fp, fc),
        0 <= i < w.len(),
        0 <= j < w.len(),
    ensures
        (w[i].spec_front() == w[j].spec_front()) == (r[i].spec_front() == r[j].spec_front()),
        (w[i].spec_front() == w[j].spec_back()) == (r[i].spec_front() == r[j].spec_back()),
        (w[i].spec_back() == w[j].spec_back()) == (r[i].spec_back() == r[j].spec_back()),
{
    assert(same_sharing(w[i], w[j], r[i], r[j]));
    assert(edge_image(t0, t1, w[i], r[i], fp, fc));
    assert(edge_image(t0, t1, w[j], r[j], fp, fc));
}

/// The image of a wire is closed exactly when the wire is, and simple exactly
/// when the wire is: vertices are told apart by identity, so no assumption on
/// the point transform is needed.
pub proof fn lemma_wire_image_closed_simple<P, C, S, FP: Fn(&P) -> P, FC: Fn(&C) -> C>(
    t0: &Topology<P, C, S>,
    t1: &Topology<P, C, S>,
    w: &Wire,
    r: &Wire,
    fp: &FP,
    fc: &FC,
)
    requires
        wire_image(t0, t1, w.edges@, r.edges@, fp, fc),
    ensures
        r.spec_is_closed() == w.spec_is_closed(),
        r.spec_is_simple() == w.spec_is_simple(),
{
    let n = w.edges@.len();
    if n > 0 {
        lemma_image_ends_meet(t0, t1, w.edges@, r.edges@, fp, fc, 0, n - 1);
        assert(w.spec_is_closed() == (w.edges@[n - 1].spec_back() == w.edges@[0].spec_front()));
    }
    assert(r.vertex_seq().len() == w.vertex_seq().len());
    assert forall|a: int, b: int|
        0 <= a < w.vertex_seq().len() && 0 <= b < w.vertex_seq().len() implies (#[trigger] w.vertex_seq()[a]
        == #[trigger] w.vertex_seq()[b]) == (r.vertex_seq()[a] == r.vertex_seq()[b]) by {
        lemma_vertex_seq_at(w, a);
        lemma_vertex_seq_at(w, b);
        lemma_vertex_seq_at(r, a);
        lemma_vertex_seq_at(r, b);
        let ia = if a < n { a } else { n - 1 };
        let ib = if b < n { b } else { n - 1 };
        lemma_image_ends_meet(t0, t1, w.edges@, r.edges@, fp, fc, ia, ib);
        lemma_image_ends_meet(t0, t1, w.edges@, r.edges@, fp, fc, ib, ia);
    }
    if w.spec_is_simple() {
        assert forall|a: int, b: int|
            0 <= a < r.vertex_seq().len() && 0 <= b < r.vertex_seq().len() && a != b implies r.vertex_seq()[a]
            != r.vertex_seq()[b] by {
            assert(w.vertex_seq()[a] != w.vertex_seq()[b]);
        }
    }
    if r.spec_is_simple() {
        assert forall|a: int, b: int|
            0 <= a < w.vertex_seq().len() && 0 <= b < w.vertex_seq().len() && a != b implies w.vertex_seq()[a]
            != w.vertex_seq()[b] by {
            assert(r.vertex_seq()[a] != r.vertex_seq()[b]);
        }
    }
}

/// A value written into a shared cell is what every handle of that cell reads.
pub proof fn lemma_shared_cell_visible<P, C, S>(
    t0: &Topology<P, C, S>,
    t1: &Topology<P, C, S>,
    v: Vertex,
    w: Vertex,
    p: P,
)
    requires
        t0.valid_vertex(v),
        t1.points() == t0.points().update(v.id as int, p),
        w == v,
    ensures
        t1.point(w) == p,
{
}

/// `f` gives one result for each argument.
pub open spec fn deterministic<T, F: Fn(&T) -> T>(f: &F) -> bool {
    forall|x: T, y1: T, y2: T| #[trigger] f.ensures((&x,), y1) && #[trigger] f.ensures((&x,), y2) ==> y1 == y2
}

/// Two images of one edge, made by deterministic transforms, hold the same
/// values at the same ends.
proof fn lemma_images_agree<P, C, S, FP: Fn(&P) -> P, FC: Fn(&C) -> C>(
    t0: &Topology<P, C, S>,
    t1: &Topology<P, C, S>,
    t2: &Topology<P, C, S>,
    e: Edge,
    r1: Edge,
    r2: Edge,
    fp: &FP,
    fc: &FC,
)
    requires
        deterministic(fp),
        deterministic(fc),
        edge_image(t0, t1, e, r1, fp, fc),
        edge_image(t0, t2, e, r2, fp, fc),
    ensures
        t1.point(r1.spec_front()) == t2.point(r2.spec_front()),
        t1.point(r1.spec_back()) == t2.point(r2.spec_back()),
        t1.curve(r1.curve) == t2.curve(r2.curve),
{
    assert(fp.ensures((&t0.point(e.start),), t1.point(r1.start)));
    assert(fp.ensures((&t0.point(e.start),), t2.point(r2.start)));
    assert(fp.ensures((&t0.point(e.end),), t1.point(r1.end)));
    assert(fp.ensures((&t0.point(e.end),), t2.point(r2.end)));
    assert(fc.ensures((&t0.curve(e.curve),), t1.curve(r1.curve)));
    assert(fc.ensures((&t0.curve(e.curve),), t2.curve(r2.curve)));
}

/// Mapping a flipped face, with deterministic transforms, gives the flip of
/// the image of the face as the face runs it: the other orientation, and along
/// each boundary the edges in reverse order, front and back swapped, with the
/// same point and curve values.
pub proof fn lemma_face_image_inverse_traversal<
    P,
    C,
    S,
    FP: Fn(&P) -> P,
    FC: Fn(&C) -> C,
    FS: Fn(&S) -> S,
>(
    t0: &Topology<P, C, S>,
    t1: &Topology<P, C, S>,
    t2: &Topology<P, C, S>,
    f: &Face,
    flipped: &Face,
    r1: &Face,
    r2: &Face,
    fp: &FP,
    fc: &FC,
    fs: &FS,
)
    requires
        deterministic(fp),
        deterministic(fc),
        same_wires(flipped.boundaries@, f.boundaries@),
        flipped.surface == f.surface,
        flipped.orientation == !f.orientation,
        face_image(t0, t1, f, r1, fp, fc, fs),
        face_image(t0, t2, flipped, r2, fp, fc, fs),
    ensures
        r2.orientation == !r1.orientation,
        forall|b: int|
            #![trigger oriented_boundaries(r2.boundaries@, r2.orientation)[b]]
            0 <= b < f.boundaries@.len() ==> {
                let o1 = oriented_boundaries(r1.boundaries@, r1.orientation)[b];
                let o2 = oriented_boundaries(r2.boundaries@, r2.orientation)[b];
                &&& o2.len() == o1.len()
                &&& forall|i: int|
                    0 <= i < o2.len() ==> {
                        &&& t2.point((#[trigger] o2[i]).spec_front()) == t1.point(
                            o1[o1.len() - 1 - i].spec_back(),
                        )
                        &&& t2.point(o2[i].spec_back()) == t1.point(o1[o1.len() - 1 - i].spec_front())
                        &&& t2.curve(o2[i].curve) == t1.curve(o1[o1.len() - 1 - i].curve)
                    }
            },
{
    assert forall|b: int|
        #![trigger oriented_boundaries(r2.boundaries@, r2.orientation)[b]]
        0 <= b < f.boundaries@.len() implies {
            let o1 = oriented_boundaries(r1.boundaries@, r1.orientation)[b];
            let o2 = oriented_boundaries(r2.boundaries@, r2.orientation)[b];
            &&& o2.len() == o1.len()
            &&& forall|i: int|
                0 <= i < o2.len() ==> {
                    &&& t2.point((#[trigger] o2[i]).spec_front()) == t1.point(
                        o1[o1.len() - 1 - i].spec_back(),
                    )
                    &&& t2.point(o2[i].spec_back()) == t1.point(o1[o1.len() - 1 - i].spec_front())
                    &&& t2.curve(o2[i].curve) == t1.curve(o1[o1.len() - 1 - i].curve)
                }
        } by {
        let w = f.boundaries@[b].edges@;
        let a1 = r1.boundaries@[b].edges@;
        let a2 = r2.boundaries@[b].edges@;
        assert(flipped.boundaries@[b].edges@ == w);
        assert(wire_image(t0, t1, w, a1, fp, fc));
        assert(wire_image(t0, t2, w, a2, fp, fc));
        let o1 = oriented_boundaries(r1.boundaries@, r1.orientation)[b];
        let o2 = oriented_boundaries(r2.boundaries@, r2.orientation)[b];
        let n = w.len();
        assert forall|i: int| 0 <= i < o2.len() implies {
            &&& t2.point((#[trigger] o2[i]).spec_front()) == t1.point(o1[o1.len() - 1 - i].spec_back())
            &&& t2.point(o2[i].spec_back()) == t1.point(o1[o1.len() - 1 - i].spec_front())
            &&& t2.curve(o2[i].curve) == t1.curve(o1[o1.len() - 1 - i].curve)
        } by {
            if r1.orientation {
                let k = n - 1 - i;
                assert(o1 == a1);
                assert(o2[i] == a2[k].spec_inverse());
                lemma_images_agree(t0, t1, t2, w[k], a1[k], a2[k], fp, fc);
            } else {
                assert(o2 == a2);
                assert(o1[n - 1 - i] == a1[i].spec_inverse());
                lemma_images_agree(t0, t1, t2, w[i], a1[i], a2[i], fp, fc);
            }
        }
    }
}

} // verus!
