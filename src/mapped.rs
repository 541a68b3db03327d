use vstd::prelude::*;

use crate::edge::Edge;
use crate::face::{Face, Shell, Solid};
use crate::store::{Topology, Vertex};
use crate::wire::Wire;
use std::collections::HashMap;

verus! {

broadcast use vstd::std_specs::hash::group_hash_axioms;

/// `f` may be called on every value.
pub open spec fn total<T, F: Fn(&T) -> T>(f: &F) -> bool {
    forall|x: T| #[trigger] f.requires((&x,))
}

/// `y` is a value that `f` returns on `x`.
pub open spec fn maps_to<T, F: Fn(&T) -> T>(f: &F, x: T, y: T) -> bool {
    f.ensures((&x,), y)
}

/// The preconditions shared by every mapping call.
///
/// A mapping call has the store to itself for its whole walk, so no other
/// holder writes a cell meanwhile: each cell is read as one snapshot, and no
/// lock state changes. A poisoned cell is read like any other; whether its
/// content is trusted is for the caller to decide before mapping, with
/// `try_lock`, `lock_state` or `clear_poison`.
pub open spec fn mappable<P, C, S, FP: Fn(&P) -> P, FC: Fn(&C) -> C, FS: Fn(&S) -> S>(
    t: &Topology<P, C, S>,
    fp: &FP,
    fc: &FC,
    fs: &FS,
) -> bool {
    &&& t.wf()
    &&& total(fp)
    &&& total(fc)
    &&& total(fs)
}

/// `r`, a vertex of `t1`, is a fresh image of `v`, a vertex of `t0`.
pub open spec fn vertex_image<P, C, S, FP: Fn(&P) -> P>(
    t0: &Topology<P, C, S>,
    t1: &Topology<P, C, S>,
    v: Vertex,
    r: Vertex,
    fp: &FP,
) -> bool {
    &&& t0.points().len() <= r.id < t1.points().len()
    &&& maps_to(fp, t0.point(v), t1.point(r))
}

/// `r`, an edge of `t1`, is a fresh image of `e`, an edge of `t0`: its ends
/// and curve are new cells holding the mapped values, its orientation is kept.
pub open spec fn edge_image<P, C, S, FP: Fn(&P) -> P, FC: Fn(&C) -> C>(
    t0: &Topology<P, C, S>,
    t1: &Topology<P, C, S>,
    e: Edge,
    r: Edge,
    fp: &FP,
    fc: &FC,
) -> bool {
    &&& t1.valid_edge(r)
    &&& r.orientation == e.orientation
    &&& vertex_image(t0, t1, e.start, r.start, fp)
    &&& vertex_image(t0, t1, e.end, r.end, fp)
    &&& t0.curves().len() <= r.curve
    &&& maps_to(fc, t0.curve(e.curve), t1.curve(r.curve))
}

/// `x` and `y` share cells exactly where `a` and `b` do: the same curve, and
/// the same vertex at each pair of ends.
pub open spec fn same_sharing(a: Edge, b: Edge, x: Edge, y: Edge) -> bool {
    &&& (a.curve == b.curve) == (x.curve == y.curve)
    &&& (a.start == b.start) == (x.start == y.start)
    &&& (a.start == b.end) == (x.start == y.end)
    &&& (a.end == b.start) == (x.end == y.start)
    &&& (a.end == b.end) == (x.end == y.end)
}

/// `r` is an image of wire `w`, edge by edge, with the same sharing among its edges.
pub open spec fn wire_image<P, C, S, FP: Fn(&P) -> P, FC: Fn(&C) -> C>(
    t0: &Topology<P, C, S>,
    t1: &Topology<P, C, S>,
    w: Seq<Edge>,
    r: Seq<Edge>,
    fp: &FP,
    fc: &FC,
) -> bool {
    &&& r.len() == w.len()
    &&& forall|i: int| 0 <= i < w.len() ==> edge_image(t0, t1, #[trigger] w[i], r[i], fp, fc)
    &&& forall|i: int, j: int|
        0 <= i < w.len() && 0 <= j < w.len() ==> same_sharing(
            #[trigger] w[i],
            #[trigger] w[j],
            r[i],
            r[j],
        )
}

/// `r` is an image of face `f`: a new surface cell holding the mapped surface,
/// the same orientation, and each boundary an image of the boundary at its place.
pub open spec fn face_image<P, C, S, FP: Fn(&P) -> P, FC: Fn(&C) -> C, FS: Fn(&S) -> S>(
    t0: &Topology<P, C, S>,
    t1: &Topology<P, C, S>,
    f: &Face,
    r: &Face,
    fp: &FP,
    fc: &FC,
    fs: &FS,
) -> bool {
    &&& t0.surfaces().len() <= r.surface < t1.surfaces().len()
    &&& maps_to(fs, t0.surface(f.surface), t1.surface(r.surface))
    &&& r.orientation == f.orientation
    &&& r.boundaries@.len() == f.boundaries@.len()
    &&& forall|b: int|
        0 <= b < f.boundaries@.len() ==> wire_image(
            t0,
            t1,
            (#[trigger] f.boundaries@[b]).edges@,
            r.boundaries@[b].edges@,
            fp,
            fc,
        )
}

/// The edge at place `i` of boundary `b` of face `f` of a shell.
pub open spec fn shell_edge(s: &Shell, f: int, b: int, i: int) -> Edge {
    s.faces@[f].boundaries@[b].edges@[i]
}

/// `(f, b, i)` is a place of an edge in the shell.
pub open spec fn shell_place(s: &Shell, f: int, b: int, i: int) -> bool {
    &&& 0 <= f < s.faces@.len()
    &&& 0 <= b < s.faces@[f].boundaries@.len()
    &&& 0 <= i < s.faces@[f].boundaries@[b].edges@.len()
}

/// `r` is an image of shell `s`: each face an image of the face at its place,
/// and the edges of all faces share cells exactly where those of `s` do.
pub open spec fn shell_image<P, C, S, FP: Fn(&P) -> P, FC: Fn(&C) -> C, FS: Fn(&S) -> S>(
    t0: &Topology<P, C, S>,
    t1: &Topology<P, C, S>,
    s: &Shell,
    r: &Shell,
    fp: &FP,
    fc: &FC,
    fs: &FS,
) -> bool {
    &&& r.faces@.len() == s.faces@.len()
    &&& forall|f: int|
        0 <= f < s.faces@.len() ==> face_image(t0, t1, #[trigger] &s.faces@[f], &r.faces@[f], fp, fc, fs)
    &&& forall|f1: int, b1: int, i1: int, f2: int, b2: int, i2: int|
        shell_place(s, f1, b1, i1) && shell_place(s, f2, b2, i2) ==> same_sharing(
            #[trigger] shell_edge(s, f1, b1, i1),
            #[trigger] shell_edge(s, f2, b2, i2),
            shell_edge(r, f1, b1, i1),
            shell_edge(r, f2, b2, i2),
        )
}

/// Invariant of a vertex map: each source vertex of `t0` in its domain goes to
/// its own fresh vertex of `t`, holding the mapped point.
pub open spec fn vertex_map_ok<P, C, S, FP: Fn(&P) -> P>(
    t0: &Topology<P, C, S>,
    t: &Topology<P, C, S>,
    vm: Map<usize, Vertex>,
    fp: &FP,
) -> bool {
    &&& forall|a: usize|
        #[trigger] vm.contains_key(a) ==> a < t0.points().len() && vertex_image(
            t0,
            t,
            Vertex { id: a },
            vm[a],
            fp,
        )
    &&& forall|a: usize, b: usize|
        vm.contains_key(a) && vm.contains_key(b) && #[trigger] vm[a] == #[trigger] vm[b] ==> a == b
}

/// The image of edge `e` under the maps: the mapped edge of its curve, run
/// the way `e` runs.
pub open spec fn image_edge(vm: Map<usize, Vertex>, em: Map<usize, Edge>, e: Edge) -> Edge {
    Edge {
        start: vm[e.start.id],
        end: vm[e.end.id],
        curve: em[e.curve].curve,
        orientation: e.orientation,
    }
}

/// Invariant of an edge map: each source curve of `t0` in its domain goes to
/// its own fresh curve of `t`, holding the mapped curve, between the images
/// of its ends.
pub open spec fn edge_map_ok<P, C, S, FC: Fn(&C) -> C>(
    t0: &Topology<P, C, S>,
    t: &Topology<P, C, S>,
    vm: Map<usize, Vertex>,
    em: Map<usize, Edge>,
    fc: &FC,
) -> bool {
    &&& forall|c: usize|
        #[trigger] em.contains_key(c) ==> {
            &&& c < t0.curves().len()
            &&& vm.contains_key(t0.curve_ends()[c as int].0.id)
            &&& vm.contains_key(t0.curve_ends()[c as int].1.id)
            &&& em[c].start == vm[t0.curve_ends()[c as int].0.id]
            &&& em[c].end == vm[t0.curve_ends()[c as int].1.id]
            &&& em[c].orientation
            &&& t.valid_edge(em[c])
            &&& t0.curves().len() <= em[c].curve
            &&& maps_to(fc, t0.curve(c), t.curve(em[c].curve))
        }
    &&& forall|a: usize, b: usize|
        em.contains_key(a) && em.contains_key(b) && #[trigger] em[a].curve == #[trigger] em[b].curve
            ==> a == b
}

/// Both ends of every edge of `w` are in the vertex map.
pub open spec fn ends_mapped(vm: Map<usize, Vertex>, w: Seq<Edge>) -> bool {
    forall|i: int|
        0 <= i < w.len() ==> vm.contains_key((#[trigger] w[i]).start.id) && vm.contains_key(
            w[i].end.id,
        )
}

/// The maps stay sound while the topology only grows.
proof fn lemma_maps_grow<P, C, S, FP: Fn(&P) -> P, FC: Fn(&C) -> C>(
    t0: &Topology<P, C, S>,
    t1: &Topology<P, C, S>,
    t2: &Topology<P, C, S>,
    vm: Map<usize, Vertex>,
    em: Map<usize, Edge>,
    fp: &FP,
    fc: &FC,
)
    requires
        vertex_map_ok(t0, t1, vm, fp),
        edge_map_ok(t0, t1, vm, em, fc),
        t1.extended_by(t2),
    ensures
        vertex_map_ok(t0, t2, vm, fp),
        edge_map_ok(t0, t2, vm, em, fc),
{
    assert forall|a: usize| #[trigger] vm.contains_key(a) implies a < t0.points().len()
        && vertex_image(t0, t2, Vertex { id: a }, vm[a], fp) by {
        assert(t2.points()[vm[a].id as int] == t1.points()[vm[a].id as int]);
    }
    assert forall|c: usize| #[trigger] em.contains_key(c) implies t2.valid_edge(em[c]) && maps_to(
        fc,
        t0.curve(c),
        t2.curve(em[c].curve),
    ) by {
        assert(t2.curves()[em[c].curve as int] == t1.curves()[em[c].curve as int]);
        assert(t2.curve_ends()[em[c].curve as int] == t1.curve_ends()[em[c].curve as int]);
    }
}

/// Under sound maps, the images of two valid edges share cells exactly where
/// the edges do.
proof fn lemma_image_sharing<P, C, S, FP: Fn(&P) -> P, FC: Fn(&C) -> C>(
    t0: &Topology<P, C, S>,
    t: &Topology<P, C, S>,
    vm: Map<usize, Vertex>,
    em: Map<usize, Edge>,
    fp: &FP,
    fc: &FC,
    a: Edge,
    b: Edge,
)
    requires
        vertex_map_ok(t0, t, vm, fp),
        edge_map_ok(t0, t, vm, em, fc),
        vm.contains_key(a.start.id),
        vm.contains_key(a.end.id),
        vm.contains_key(b.start.id),
        vm.contains_key(b.end.id),
        em.contains_key(a.curve),
        em.contains_key(b.curve),
    ensures
        same_sharing(a, b, image_edge(vm, em, a), image_edge(vm, em, b)),
{
    let x = image_edge(vm, em, a);
    let y = image_edge(vm, em, b);
    if x.curve == y.curve {
        assert(em[a.curve].curve == em[b.curve].curve);
    }
    if x.start == y.start {
        assert(vm[a.start.id] == vm[b.start.id]);
    }
    if x.start == y.end {
        assert(vm[a.start.id] == vm[b.end.id]);
    }
    if x.end == y.start {
        assert(vm[a.end.id] == vm[b.start.id]);
    }
    if x.end == y.end {
        assert(vm[a.end.id] == vm[b.end.id]);
    }
}

/// Under sound maps, the image of a valid edge of `t0` is an image in the sense of `edge_image`.
proof fn lemma_image_edge<P, C, S, FP: Fn(&P) -> P, FC: Fn(&C) -> C>(
    t0: &Topology<P, C, S>,
    t: &Topology<P, C, S>,
    vm: Map<usize, Vertex>,
    em: Map<usize, Edge>,
    fp: &FP,
    fc: &FC,
    e: Edge,
)
    requires
        t0.wf(),
        t0.valid_edge(e),
        vertex_map_ok(t0, t, vm, fp),
        edge_map_ok(t0, t, vm, em, fc),
        em.contains_key(e.curve),
    ensures
        edge_image(t0, t, e, image_edge(vm, em, e), fp, fc),
{
    assert(vm.contains_key(e.start.id));
    assert(vm.contains_key(e.end.id));
    assert(Vertex { id: e.start.id } == e.start);
    assert(Vertex { id: e.end.id } == e.end);
}

impl Vertex {
    /// A new vertex whose point is `point_mapping` applied to this vertex's point.
    pub fn mapped<P, C, S, FP: Fn(&P) -> P, FC: Fn(&C) -> C, FS: Fn(&S) -> S>(
        &self,
        topo: &mut Topology<P, C, S>,
        point_mapping: &FP,
        curve_mapping: &FC,
        surface_mapping: &FS,
    ) -> (r: Vertex)
        requires
            mappable(old(topo), point_mapping, curve_mapping, surface_mapping),
            old(topo).valid_vertex(*self),
        ensures
            final(topo).wf(),
            old(topo).extended_by(final(topo)),
            r.id == old(topo).points().len(),
            final(topo).points().len() == old(topo).points().len() + 1,
            vertex_image(old(topo), final(topo), *self, r, point_mapping),
            final(topo).curves() == old(topo).curves(),
            final(topo).curve_ends() == old(topo).curve_ends(),
            final(topo).surfaces() == old(topo).surfaces(),
    {
        let p = point_mapping(topo.point_ref(*self));
        Vertex::new(topo, p)
    }
}

impl Edge {
    /// A new edge between new images of the two ends, on a new curve cell
    /// holding `curve_mapping` of the curve, run the way this edge runs.
    pub fn mapped<P, C, S, FP: Fn(&P) -> P, FC: Fn(&C) -> C, FS: Fn(&S) -> S>(
        &self,
        topo: &mut Topology<P, C, S>,
        point_mapping: &FP,
        curve_mapping: &FC,
        surface_mapping: &FS,
    ) -> (r: Edge)
        requires
            mappable(old(topo), point_mapping, curve_mapping, surface_mapping),
            old(topo).valid_edge(*self),
        ensures
            final(topo).wf(),
            old(topo).extended_by(final(topo)),
            edge_image(old(topo), final(topo), *self, r, point_mapping, curve_mapping),
            r.start != r.end,
            final(topo).surfaces() == old(topo).surfaces(),
    {
        let ghost t0 = *topo;
        proof {
            t0.lemma_valid_edge_ends(*self);
        }
        let v0 = self.absolute_front().mapped(topo, point_mapping, curve_mapping, surface_mapping);
        let ghost t1 = *topo;
        let v1 = self.absolute_back().mapped(topo, point_mapping, curve_mapping, surface_mapping);
        let ghost t2 = *topo;
        let curve = curve_mapping(topo.curve_ref(self.curve));
        let mut edge = Edge::debug_new(topo, v0, v1, curve);
        if edge.orientation() != self.orientation() {
            edge.invert();
        }
        proof {
            t0.lemma_extended_by_trans(&t1, &t2);
            t0.lemma_extended_by_trans(&t2, topo);
            t1.lemma_extended_by_trans(&t2, topo);
            assert(topo.points()[v0.id as int] == t1.points()[v0.id as int]);
            assert(topo.points()[v1.id as int] == t2.points()[v1.id as int]);
            assert(t1.points()[self.end.id as int] == t0.points()[self.end.id as int]);
            assert(topo.curve_ends()[edge.curve as int] == (v0, v1));
            assert(t2.curves()[self.curve as int] == t0.curves()[self.curve as int]);
        }
        edge
    }
}

/// Adds to `vmap` a new image of each end of the edges of `w` that it lacks.
fn map_wire_vertices<P, C, S, FP: Fn(&P) -> P, FC: Fn(&C) -> C, FS: Fn(&S) -> S>(
    w: &Wire,
    topo: &mut Topology<P, C, S>,
    vmap: &mut HashMap<usize, Vertex>,
    point_mapping: &FP,
    curve_mapping: &FC,
    surface_mapping: &FS,
    Ghost(t0): Ghost<Topology<P, C, S>>,
    Ghost(emap): Ghost<Map<usize, Edge>>,
)
    requires
        mappable(old(topo), point_mapping, curve_mapping, surface_mapping),
        t0.wf(),
        t0.valid_wire(w),
        t0.extended_by(old(topo)),
        vertex_map_ok(&t0, old(topo), old(vmap)@, point_mapping),
        edge_map_ok(&t0, old(topo), old(vmap)@, emap, curve_mapping),
    ensures
        final(topo).wf(),
        t0.extended_by(final(topo)),
        old(topo).extended_by(final(topo)),
        final(topo).curves() == old(topo).curves(),
        final(topo).surfaces() == old(topo).surfaces(),
        vertex_map_ok(&t0, final(topo), final(vmap)@, point_mapping),
        edge_map_ok(&t0, final(topo), final(vmap)@, emap, curve_mapping),
        old(vmap)@.submap_of(final(vmap)@),
        ends_mapped(final(vmap)@, w.edges@),
{
    let mut i: usize = 0;
    proof {
        old(topo).lemma_extended_by_refl();
    }
    while i < w.edges.len()
        invariant
            mappable(topo, point_mapping, curve_mapping, surface_mapping),
            t0.wf(),
            t0.valid_wire(w),
            t0.extended_by(topo),
            old(topo).extended_by(topo),
            topo.curves() == old(topo).curves(),
            topo.surfaces() == old(topo).surfaces(),
            vertex_map_ok(&t0, topo, vmap@, point_mapping),
            edge_map_ok(&t0, topo, vmap@, emap, curve_mapping),
            old(vmap)@.submap_of(vmap@),
            i <= w.edges@.len(),
            ends_mapped(vmap@, w.edges@.subrange(0, i as int)),
        decreases w.edges@.len() - i,
    {
        let e = w.edges[i];
        proof {
            t0.lemma_valid_edge_ends(e);
        }
        let ends = [e.absolute_front(), e.absolute_back()];
        let mut k: usize = 0;
        while k < 2
            invariant
                mappable(topo, point_mapping, curve_mapping, surface_mapping),
                t0.wf(),
                t0.valid_edge(e),
                t0.valid_vertex(e.start),
                t0.valid_vertex(e.end),
                ends@ == seq![e.start, e.end],
                t0.extended_by(topo),
                old(topo).extended_by(topo),
                topo.curves() == old(topo).curves(),
                topo.surfaces() == old(topo).surfaces(),
                vertex_map_ok(&t0, topo, vmap@, point_mapping),
                edge_map_ok(&t0, topo, vmap@, emap, curve_mapping),
                old(vmap)@.submap_of(vmap@),
                i < w.edges@.len(),
                w.edges@[i as int] == e,
                ends_mapped(vmap@, w.edges@.subrange(0, i as int)),
                k <= 2,
                k >= 1 ==> vmap@.contains_key(e.start.id),
                k >= 2 ==> vmap@.contains_key(e.end.id),
            decreases 2 - k,
        {
            let v = ends[k];
            if !vmap.contains_key(&v.id) {
                let ghost before = *topo;
                let ghost vm0 = vmap@;
                let nv = v.mapped(topo, point_mapping, curve_mapping, surface_mapping);
                vmap.insert(v.id, nv);
                proof {
                    t0.lemma_extended_by_trans(&before, topo);
                    old(topo).lemma_extended_by_trans(&before, topo);
                    lemma_maps_grow(&t0, &before, topo, vm0, emap, point_mapping, curve_mapping);
                    assert(Vertex { id: v.id } == v);
                    assert(topo.points()[v.id as int] == t0.points()[v.id as int]);
                    assert forall|a: usize| #[trigger] vmap@.contains_key(a) implies a
                        < t0.points().len() && vertex_image(&t0, topo, Vertex { id: a }, vmap@[a], point_mapping) by {
                        if a != v.id {
                            assert(vm0.contains_key(a));
                        }
                    }
                    assert forall|a: usize, b: usize|
                        vmap@.contains_key(a) && vmap@.contains_key(b) && #[trigger] vmap@[a]
                            == #[trigger] vmap@[b] implies a == b by {
                        if a != v.id && b != v.id {
                            assert(vm0.contains_key(a) && vm0.contains_key(b));
                        } else if a != v.id {
                            assert(vm0.contains_key(a));
                            assert(vmap@[a].id < before.points().len());
                        } else if b != v.id {
                            assert(vm0.contains_key(b));
                            assert(vmap@[b].id < before.points().len());
                        }
                    }
                    assert forall|c: usize| #[trigger] emap.contains_key(c) implies vmap@.contains_key(
                        t0.curve_ends()[c as int].0.id,
                    ) && vmap@.contains_key(t0.curve_ends()[c as int].1.id) && emap[c].start
                        == vmap@[t0.curve_ends()[c as int].0.id] && emap[c].end
                        == vmap@[t0.curve_ends()[c as int].1.id] by {
                        assert(vm0.contains_key(t0.curve_ends()[c as int].0.id));
                        assert(vm0.contains_key(t0.curve_ends()[c as int].1.id));
                    }
                    assert forall|j: int| 0 <= j < i implies vmap@.contains_key(
                        (#[trigger] w.edges@.subrange(0, i as int)[j]).start.id,
                    ) && vmap@.contains_key(w.edges@.subrange(0, i as int)[j].end.id) by {
                        assert(vm0.contains_key(w.edges@.subrange(0, i as int)[j].start.id));
                        assert(vm0.contains_key(w.edges@.subrange(0, i as int)[j].end.id));
                    }
                }
            }
            k = k + 1;
        }
        i = i + 1;
        proof {
            assert forall|j: int| 0 <= j < i implies vmap@.contains_key(
                (#[trigger] w.edges@.subrange(0, i as int)[j]).start.id,
            ) && vmap@.contains_key(w.edges@.subrange(0, i as int)[j].end.id) by {
                if j < i - 1 {
                    assert(w.edges@.subrange(0, i as int)[j] == w.edges@.subrange(0, i - 1)[j]);
                }
            }
        }
    }
    proof {
        assert(w.edges@.subrange(0, i as int) =~= w.edges@);
    }
}

/// Builds the image of `w` edge by edge: an edge whose curve is already in
/// `emap` reuses its image, run the way the occurrence runs; any other gets a
/// new curve cell between the images of its ends, recorded in `emap`.
fn map_wire_edges<P, C, S, FP: Fn(&P) -> P, FC: Fn(&C) -> C, FS: Fn(&S) -> S>(
    w: &Wire,
    topo: &mut Topology<P, C, S>,
    vmap: &HashMap<usize, Vertex>,
    emap: &mut HashMap<usize, Edge>,
    point_mapping: &FP,
    curve_mapping: &FC,
    surface_mapping: &FS,
    Ghost(t0): Ghost<Topology<P, C, S>>,
) -> (r: Wire)
    requires
        mappable(old(topo), point_mapping, curve_mapping, surface_mapping),
        t0.wf(),
        t0.valid_wire(w),
        t0.extended_by(old(topo)),
        vertex_map_ok(&t0, old(topo), vmap@, point_mapping),
        edge_map_ok(&t0, old(topo), vmap@, old(emap)@, curve_mapping),
        ends_mapped(vmap@, w.edges@),
    ensures
        final(topo).wf(),
        t0.extended_by(final(topo)),
        old(topo).extended_by(final(topo)),
        final(topo).points() == old(topo).points(),
        final(topo).surfaces() == old(topo).surfaces(),
        vertex_map_ok(&t0, final(topo), vmap@, point_mapping),
        edge_map_ok(&t0, final(topo), vmap@, final(emap)@, curve_mapping),
        old(emap)@.submap_of(final(emap)@),
        r.edges@.len() == w.edges@.len(),
        forall|i: int|
            0 <= i < w.edges@.len() ==> final(emap)@.contains_key((#[trigger] w.edges@[i]).curve)
                && r.edges@[i] == image_edge(vmap@, final(emap)@, w.edges@[i]),
{
    let mut wire = Wire::new();
    let mut i: usize = 0;
    proof {
        old(topo).lemma_extended_by_refl();
    }
    while i < w.edges.len()
        invariant
            mappable(topo, point_mapping, curve_mapping, surface_mapping),
            t0.wf(),
            t0.valid_wire(w),
            t0.extended_by(topo),
            old(topo).extended_by(topo),
            topo.points() == old(topo).points(),
            topo.surfaces() == old(topo).surfaces(),
            vertex_map_ok(&t0, topo, vmap@, point_mapping),
            edge_map_ok(&t0, topo, vmap@, emap@, curve_mapping),
            ends_mapped(vmap@, w.edges@),
            old(emap)@.submap_of(emap@),
            i <= w.edges@.len(),
            wire.edges@.len() == i,
            forall|j: int|
                0 <= j < i ==> emap@.contains_key((#[trigger] w.edges@[j]).curve)
                    && wire.edges@[j] == image_edge(vmap@, emap@, w.edges@[j]),
        decreases w.edges@.len() - i,
    {
        let edge = w.edges[i];
        proof {
            assert(t0.valid_edge(w.edges@[i as int]));
            t0.lemma_valid_edge_ends(edge);
            assert(vmap@.contains_key(w.edges@[i as int].start.id));
            assert(vmap@.contains_key(w.edges@[i as int].end.id));
        }
        match emap.get(&edge.id()) {
            Some(new_edge) => {
                if edge.absolute_front() == edge.front() {
                    wire.push_back(*new_edge);
                } else {
                    wire.push_back(new_edge.inverse());
                }
            },
            None => {
                let ghost before = *topo;
                let ghost em0 = emap@;
                let vertex0 = *vmap.get(&edge.absolute_front().id()).unwrap();
                let vertex1 = *vmap.get(&edge.absolute_back().id()).unwrap();
                let curve = curve_mapping(topo.curve_ref(edge.curve));
                proof {
                    assert(Vertex { id: edge.start.id } == edge.start);
                    assert(Vertex { id: edge.end.id } == edge.end);
                    assert(vertex0 != vertex1);
                }
                let new_edge = Edge::debug_new(topo, vertex0, vertex1, curve);
                if edge.orientation() {
                    wire.push_back(new_edge);
                } else {
                    wire.push_back(new_edge.inverse());
                }
                emap.insert(edge.id(), new_edge);
                proof {
                    t0.lemma_extended_by_trans(&before, topo);
                    old(topo).lemma_extended_by_trans(&before, topo);
                    lemma_maps_grow(&t0, &before, topo, vmap@, em0, point_mapping, curve_mapping);
                    assert(before.curves()[edge.curve as int] == t0.curves()[edge.curve as int]);
                    assert forall|c: usize| #[trigger] emap@.contains_key(c) implies {
                        &&& c < t0.curves().len()
                        &&& vmap@.contains_key(t0.curve_ends()[c as int].0.id)
                        &&& vmap@.contains_key(t0.curve_ends()[c as int].1.id)
                        &&& emap@[c].start == vmap@[t0.curve_ends()[c as int].0.id]
                        &&& emap@[c].end == vmap@[t0.curve_ends()[c as int].1.id]
                        &&& emap@[c].orientation
                        &&& topo.valid_edge(emap@[c])
                        &&& t0.curves().len() <= emap@[c].curve
                        &&& maps_to(curve_mapping, t0.curve(c), topo.curve(emap@[c].curve))
                    } by {
                        if c != edge.curve {
                            assert(em0.contains_key(c));
                        } else {
                            assert(emap@[c] == new_edge);
                            assert(t0.curve_ends()[c as int] == (edge.start, edge.end));
                            assert(vmap@[edge.start.id] == vertex0);
                            assert(vmap@[edge.end.id] == vertex1);
                            assert(topo.valid_edge(new_edge));
                            assert(topo.curve(new_edge.curve) == curve);
                        }
                    }
                    assert forall|a: usize, b: usize|
                        emap@.contains_key(a) && emap@.contains_key(b) && #[trigger] emap@[a].curve
                            == #[trigger] emap@[b].curve implies a == b by {
                        if a != edge.curve && b != edge.curve {
                            assert(em0.contains_key(a) && em0.contains_key(b));
                        } else if a != edge.curve {
                            assert(em0.contains_key(a));
                            assert(before.valid_edge(em0[a]));
                            assert(emap@[a] == em0[a]);
                            assert(emap@[b] == new_edge);
                            assert(emap@[a].curve < before.curves().len());
                        } else if b != edge.curve {
                            assert(em0.contains_key(b));
                            assert(emap@[b].curve < before.curves().len());
                        }
                    }
                    assert forall|j: int| 0 <= j < i implies emap@.contains_key(
                        (#[trigger] w.edges@[j]).curve,
                    ) && wire.edges@[j] == image_edge(vmap@, emap@, w.edges@[j]) by {
                        assert(em0.contains_key(w.edges@[j].curve));
                    }
                }
            },
        }
        proof {
            assert(emap@.contains_key(edge.curve));
            assert(wire.edges@[i as int] == image_edge(vmap@, emap@, edge));
        }
        i = i + 1;
    }
    wire
}

impl Wire {
    /// A new wire, image of this one: each distinct vertex and each distinct
    /// edge of the wire is mapped once, and an edge met twice gives one new
    /// edge, run at each place the way that occurrence runs.
    pub fn mapped<P, C, S, FP: Fn(&P) -> P, FC: Fn(&C) -> C, FS: Fn(&S) -> S>(
        &self,
        topo: &mut Topology<P, C, S>,
        point_mapping: &FP,
        curve_mapping: &FC,
        surface_mapping: &FS,
    ) -> (r: Wire)
        requires
            mappable(old(topo), point_mapping, curve_mapping, surface_mapping),
            old(topo).valid_wire(self),
        ensures
            final(topo).wf(),
            old(topo).extended_by(final(topo)),
            final(topo).surfaces() == old(topo).surfaces(),
            wire_image(old(topo), final(topo), self.edges@, r.edges@, point_mapping, curve_mapping),
    {
        let ghost t0 = *topo;
        let mut vertex_map: HashMap<usize, Vertex> = HashMap::new();
        let mut edge_map: HashMap<usize, Edge> = HashMap::new();
        map_wire_vertices(
            self,
            topo,
            &mut vertex_map,
            point_mapping,
            curve_mapping,
            surface_mapping,
            Ghost(t0),
            Ghost(edge_map@),
        );
        let ghost t1 = *topo;
        let wire = map_wire_edges(
            self,
            topo,
            &vertex_map,
            &mut edge_map,
            point_mapping,
            curve_mapping,
            surface_mapping,
            Ghost(t0),
        );
        proof {
            t0.lemma_extended_by_trans(&t1, topo);
            lemma_wire_image(&t0, topo, vertex_map@, edge_map@, point_mapping, curve_mapping, self.edges@, wire.edges@);
        }
        wire
    }
}

/// A wire built edge by edge through sound maps is an image of its source.
proof fn lemma_wire_image<P, C, S, FP: Fn(&P) -> P, FC: Fn(&C) -> C>(
    t0: &Topology<P, C, S>,
    t: &Topology<P, C, S>,
    vm: Map<usize, Vertex>,
    em: Map<usize, Edge>,
    fp: &FP,
    fc: &FC,
    w: Seq<Edge>,
    r: Seq<Edge>,
)
    requires
        t0.wf(),
        forall|i: int| 0 <= i < w.len() ==> t0.valid_edge(#[trigger] w[i]),
        vertex_map_ok(t0, t, vm, fp),
        edge_map_ok(t0, t, vm, em, fc),
        ends_mapped(vm, w),
        r.len() == w.len(),
        forall|i: int|
            0 <= i < w.len() ==> em.contains_key((#[trigger] w[i]).curve) && r[i] == image_edge(
                vm,
                em,
                w[i],
            ),
    ensures
        wire_image(t0, t, w, r, fp, fc),
{
    assert forall|i: int| 0 <= i < w.len() implies edge_image(t0, t, #[trigger] w[i], r[i], fp, fc) by {
        lemma_image_edge(t0, t, vm, em, fp, fc, w[i]);
    }
    assert forall|i: int, j: int| 0 <= i < w.len() && 0 <= j < w.len() implies same_sharing(
        #[trigger] w[i],
        #[trigger] w[j],
        r[i],
        r[j],
    ) by {
        lemma_image_sharing(t0, t, vm, em, fp, fc, w[i], w[j]);
    }
}


/// An image stays an image when its source is read in an earlier topology
/// and its result in a later one.
proof fn lemma_edge_image_rebase<P, C, S, FP: Fn(&P) -> P, FC: Fn(&C) -> C>(
    t0: &Topology<P, C, S>,
    ti: &Topology<P, C, S>,
    t1: &Topology<P, C, S>,
    t2: &Topology<P, C, S>,
    e: Edge,
    r: Edge,
    fp: &FP,
    fc: &FC,
)
    requires
        t0.wf(),
        t0.valid_edge(e),
        t0.extended_by(ti),
        t1.extended_by(t2),
        edge_image(ti, t1, e, r, fp, fc),
    ensures
        edge_image(t0, t2, e, r, fp, fc),
{
    t0.lemma_valid_edge_ends(e);
    assert(ti.points()[e.start.id as int] == t0.points()[e.start.id as int]);
    assert(ti.points()[e.end.id as int] == t0.points()[e.end.id as int]);
    assert(ti.curves()[e.curve as int] == t0.curves()[e.curve as int]);
    assert(t2.points()[r.start.id as int] == t1.points()[r.start.id as int]);
    assert(t2.points()[r.end.id as int] == t1.points()[r.end.id as int]);
    assert(t2.curves()[r.curve as int] == t1.curves()[r.curve as int]);
    assert(t2.curve_ends()[r.curve as int] == t1.curve_ends()[r.curve as int]);
}

/// `lemma_edge_image_rebase`, for every edge of a wire.
proof fn lemma_wire_image_rebase<P, C, S, FP: Fn(&P) -> P, FC: Fn(&C) -> C>(
    t0: &Topology<P, C, S>,
    ti: &Topology<P, C, S>,
    t1: &Topology<P, C, S>,
    t2: &Topology<P, C, S>,
    w: Seq<Edge>,
    r: Seq<Edge>,
    fp: &FP,
    fc: &FC,
)
    requires
        t0.wf(),
        forall|i: int| 0 <= i < w.len() ==> t0.valid_edge(#[trigger] w[i]),
        t0.extended_by(ti),
        t1.extended_by(t2),
        wire_image(ti, t1, w, r, fp, fc),
    ensures
        wire_image(t0, t2, w, r, fp, fc),
{
    assert forall|i: int| 0 <= i < w.len() implies edge_image(t0, t2, #[trigger] w[i], r[i], fp, fc) by {
        lemma_edge_image_rebase(t0, ti, t1, t2, w[i], r[i], fp, fc);
    }
}

/// `lemma_edge_image_rebase`, for a face.
proof fn lemma_face_image_rebase<P, C, S, FP: Fn(&P) -> P, FC: Fn(&C) -> C, FS: Fn(&S) -> S>(
    t0: &Topology<P, C, S>,
    ti: &Topology<P, C, S>,
    t1: &Topology<P, C, S>,
    t2: &Topology<P, C, S>,
    f: &Face,
    r: &Face,
    fp: &FP,
    fc: &FC,
    fs: &FS,
)
    requires
        t0.wf(),
        t0.valid_face(f),
        t0.extended_by(ti),
        t1.extended_by(t2),
        face_image(ti, t1, f, r, fp, fc, fs),
    ensures
        face_image(t0, t2, f, r, fp, fc, fs),
{
    assert(ti.surfaces()[f.surface as int] == t0.surfaces()[f.surface as int]);
    assert(t2.surfaces()[r.surface as int] == t1.surfaces()[r.surface as int]);
    assert forall|b: int| 0 <= b < f.boundaries@.len() implies wire_image(
        t0,
        t2,
        (#[trigger] f.boundaries@[b]).edges@,
        r.boundaries@[b].edges@,
        fp,
        fc,
    ) by {
        assert(t0.valid_wire(&f.boundaries@[b]));
        lemma_wire_image_rebase(t0, ti, t1, t2, f.boundaries@[b].edges@, r.boundaries@[b].edges@, fp, fc);
    }
}

/// Two edges share no cell: neither the curve nor any end vertex.
pub open spec fn edges_apart(a: Edge, b: Edge) -> bool {
    &&& a.curve != b.curve
    &&& a.start != b.start
    &&& a.start != b.end
    &&& a.end != b.start
    &&& a.end != b.end
}

/// No edge of `x` shares a cell with an edge of `y`.
pub open spec fn wires_apart(x: Seq<Edge>, y: Seq<Edge>) -> bool {
    forall|i: int, j: int|
        0 <= i < x.len() && 0 <= j < y.len() ==> edges_apart(#[trigger] x[i], #[trigger] y[j])
}

/// Any two different wires of `bs` share no cell.
pub open spec fn wires_pairwise_apart(bs: Seq<Wire>) -> bool {
    forall|b1: int, b2: int|
        0 <= b1 < bs.len() && 0 <= b2 < bs.len() && b1 != b2 ==> wires_apart(
            (#[trigger] bs[b1]).edges@,
            (#[trigger] bs[b2]).edges@,
        )
}

/// Every edge of `w` lies in point cells from `np` on and curve cells from `nc` on.
pub open spec fn wire_from(w: Seq<Edge>, np: int, nc: int) -> bool {
    forall|i: int|
        0 <= i < w.len() ==> np <= (#[trigger] w[i]).start.id && np <= w[i].end.id && nc <= w[i].curve
}

/// Every edge of `w` lies in point cells below `np` and curve cells below `nc`.
pub open spec fn wire_below(w: Seq<Edge>, np: int, nc: int) -> bool {
    forall|i: int|
        0 <= i < w.len() ==> (#[trigger] w[i]).start.id < np && w[i].end.id < np && w[i].curve < nc
}

/// The image made while the topology grew from `ti` to `tj` lies in the cells
/// added meanwhile.
proof fn lemma_wire_image_cells<P, C, S, FP: Fn(&P) -> P, FC: Fn(&C) -> C>(
    ti: &Topology<P, C, S>,
    tj: &Topology<P, C, S>,
    w: Seq<Edge>,
    r: Seq<Edge>,
    fp: &FP,
    fc: &FC,
)
    requires
        wire_image(ti, tj, w, r, fp, fc),
    ensures
        wire_from(r, ti.points().len() as int, ti.curves().len() as int),
        wire_below(r, tj.points().len() as int, tj.curves().len() as int),
{
    assert forall|i: int| 0 <= i < r.len() implies ti.points().len() <= (#[trigger] r[i]).start.id
        && ti.points().len() <= r[i].end.id && ti.curves().len() <= r[i].curve by {
        assert(edge_image(ti, tj, w[i], r[i], fp, fc));
    }
    assert forall|i: int| 0 <= i < r.len() implies (#[trigger] r[i]).start.id < tj.points().len()
        && r[i].end.id < tj.points().len() && r[i].curve < tj.curves().len() by {
        assert(edge_image(ti, tj, w[i], r[i], fp, fc));
    }
}

proof fn lemma_wire_below_grow(w: Seq<Edge>, np: int, nc: int, np2: int, nc2: int)
    requires
        wire_below(w, np, nc),
        np <= np2,
        nc <= nc2,
    ensures
        wire_below(w, np2, nc2),
{
}

/// Wires in cells below a bound and wires in cells from it share no cell.
proof fn lemma_wires_apart(x: Seq<Edge>, y: Seq<Edge>, np: int, nc: int)
    requires
        wire_below(x, np, nc),
        wire_from(y, np, nc),
    ensures
        wires_apart(x, y),
        wires_apart(y, x),
{
    assert forall|i: int, j: int| 0 <= i < x.len() && 0 <= j < y.len() implies edges_apart(
        #[trigger] x[i],
        #[trigger] y[j],
    ) by {
        assert(x[i].start.id < np && x[i].end.id < np && x[i].curve < nc);
        assert(np <= y[j].start.id && np <= y[j].end.id && nc <= y[j].curve);
    }
    assert forall|i: int, j: int| 0 <= i < y.len() && 0 <= j < x.len() implies edges_apart(
        #[trigger] y[i],
        #[trigger] x[j],
    ) by {
        assert(x[j].start.id < np && x[j].end.id < np && x[j].curve < nc);
        assert(np <= y[i].start.id && np <= y[i].end.id && nc <= y[i].curve);
    }
}

impl Face {
    /// A new face, image of this one: each boundary mapped as a wire of its
    /// own, the surface mapped into a new cell, the orientation kept.
    pub fn mapped<P, C, S, FP: Fn(&P) -> P, FC: Fn(&C) -> C, FS: Fn(&S) -> S>(
        &self,
        topo: &mut Topology<P, C, S>,
        point_mapping: &FP,
        curve_mapping: &FC,
        surface_mapping: &FS,
    ) -> (r: Face)
        requires
            mappable(old(topo), point_mapping, curve_mapping, surface_mapping),
            old(topo).valid_face(self),
        ensures
            final(topo).wf(),
            old(topo).extended_by(final(topo)),
            face_image(old(topo), final(topo), self, &r, point_mapping, curve_mapping, surface_mapping),
            wires_pairwise_apart(r.boundaries@),
    {
        let ghost t0 = *topo;
        let mut wires: Vec<Wire> = Vec::new();
        let mut i: usize = 0;
        proof {
            t0.lemma_extended_by_refl();
        }
        while i < self.boundaries.len()
            invariant
                mappable(topo, point_mapping, curve_mapping, surface_mapping),
                t0.wf(),
                t0.valid_face(self),
                t0.extended_by(topo),
                i <= self.boundaries@.len(),
                wires@.len() == i,
                forall|b: int|
                    0 <= b < i ==> wire_image(
                        &t0,
                        topo,
                        (#[trigger] self.boundaries@[b]).edges@,
                        wires@[b].edges@,
                        point_mapping,
                        curve_mapping,
                    ),
                forall|b: int|
                    0 <= b < i ==> wire_below(
                        (#[trigger] wires@[b]).edges@,
                        topo.points().len() as int,
                        topo.curves().len() as int,
                    ),
                wires_pairwise_apart(wires@),
            decreases self.boundaries@.len() - i,
        {
            let ghost before = *topo;
            proof {
                assert(t0.valid_wire(&self.boundaries@[i as int]));
                assert forall|k: int| 0 <= k < self.boundaries@[i as int].edges@.len() implies before.valid_edge(
                    #[trigger] self.boundaries@[i as int].edges@[k],
                ) by {
                    let e = self.boundaries@[i as int].edges@[k];
                    assert(t0.valid_edge(e));
                    assert(before.curve_ends()[e.curve as int] == t0.curve_ends()[e.curve as int]);
                }
            }
            let w = self.boundaries[i].mapped(topo, point_mapping, curve_mapping, surface_mapping);
            proof {
                t0.lemma_extended_by_trans(&before, topo);
                topo.lemma_extended_by_refl();
                lemma_wire_image_rebase(&t0, &before, topo, topo, self.boundaries@[i as int].edges@, w.edges@, point_mapping, curve_mapping);
                assert forall|b: int| 0 <= b < i implies wire_image(
                    &t0,
                    topo,
                    (#[trigger] self.boundaries@[b]).edges@,
                    wires@[b].edges@,
                    point_mapping,
                    curve_mapping,
                ) by {
                    t0.lemma_extended_by_refl();
                    assert(t0.valid_wire(&self.boundaries@[b]));
                    lemma_wire_image_rebase(&t0, &t0, &before, topo, self.boundaries@[b].edges@, wires@[b].edges@, point_mapping, curve_mapping);
                }
                lemma_wire_image_cells(&before, topo, self.boundaries@[i as int].edges@, w.edges@, point_mapping, curve_mapping);
                let np = before.points().len() as int;
                let nc = before.curves().len() as int;
                assert forall|b: int| 0 <= b < i implies wires_apart(
                    (#[trigger] wires@[b]).edges@,
                    w.edges@,
                ) && wires_apart(w.edges@, wires@[b].edges@) && wire_below(
                    wires@[b].edges@,
                    topo.points().len() as int,
                    topo.curves().len() as int,
                ) by {
                    lemma_wires_apart(wires@[b].edges@, w.edges@, np, nc);
                    lemma_wire_below_grow(wires@[b].edges@, np, nc, topo.points().len() as int, topo.curves().len() as int);
                }
            }
            let ghost old_wires = wires@;
            wires.push(w);
            proof {
                assert forall|b1: int, b2: int|
                    0 <= b1 < wires@.len() && 0 <= b2 < wires@.len() && b1 != b2 implies wires_apart(
                    (#[trigger] wires@[b1]).edges@,
                    (#[trigger] wires@[b2]).edges@,
                ) by {
                    if b1 < i && b2 < i {
                        assert(wires_apart(old_wires[b1].edges@, old_wires[b2].edges@));
                    } else if b1 < i {
                        assert(wires_apart(old_wires[b1].edges@, w.edges@));
                    } else {
                        assert(wires_apart(w.edges@, old_wires[b2].edges@));
                    }
                }
                assert forall|b: int| 0 <= b < i + 1 implies wire_below(
                    (#[trigger] wires@[b]).edges@,
                    topo.points().len() as int,
                    topo.curves().len() as int,
                ) by {
                    if b < i {
                        assert(wire_below(old_wires[b].edges@, topo.points().len() as int, topo.curves().len() as int));
                    }
                }
            }
            i = i + 1;
        }
        let ghost t1 = *topo;
        let surface = surface_mapping(topo.surface_ref(self.surface));
        let mut face = Face::debug_new(topo, wires, surface);
        if !self.orientation() {
            face.invert();
        }
        proof {
            t0.lemma_extended_by_trans(&t1, topo);
            assert(t1.surfaces()[self.surface as int] == t0.surfaces()[self.surface as int]);
            assert forall|b: int| 0 <= b < self.boundaries@.len() implies wire_image(
                &t0,
                topo,
                (#[trigger] self.boundaries@[b]).edges@,
                face.boundaries@[b].edges@,
                point_mapping,
                curve_mapping,
            ) by {
                t0.lemma_extended_by_refl();
                assert(t0.valid_wire(&self.boundaries@[b]));
                lemma_wire_image_rebase(&t0, &t0, &t1, topo, self.boundaries@[b].edges@, face.boundaries@[b].edges@, point_mapping, curve_mapping);
            }
        }
        face
    }
}

/// Both ends of every edge of the boundaries of `s` that come before boundary
/// `nb` of face `nf` are in the vertex map.
pub open spec fn shell_ends_mapped(vm: Map<usize, Vertex>, s: &Shell, nf: int, nb: int) -> bool {
    forall|f: int, b: int|
        0 <= f < s.faces@.len() && 0 <= b < s.faces@[f].boundaries@.len() && (f < nf || (f == nf
            && b < nb)) ==> ends_mapped(vm, (#[trigger] s.faces@[f].boundaries@[b]).edges@)
}

/// Each boundary edge of `r` is the image under the maps of the edge at its
/// place in `f`.
pub open spec fn face_via(vm: Map<usize, Vertex>, em: Map<usize, Edge>, f: &Face, r: &Face) -> bool {
    &&& r.boundaries@.len() == f.boundaries@.len()
    &&& forall|b: int|
        0 <= b < f.boundaries@.len() ==> wire_via(
            vm,
            em,
            (#[trigger] f.boundaries@[b]).edges@,
            r.boundaries@[b].edges@,
        )
}

/// Each edge of `r` is the image under the maps of the edge at its place in `w`.
pub open spec fn wire_via(vm: Map<usize, Vertex>, em: Map<usize, Edge>, w: Seq<Edge>, r: Seq<Edge>) -> bool {
    &&& r.len() == w.len()
    &&& forall|i: int|
        0 <= i < w.len() ==> em.contains_key((#[trigger] w[i]).curve) && r[i] == image_edge(
            vm,
            em,
            w[i],
        )
}

/// The new surface cell of `r` holds the mapped surface of `f`, and `r` keeps
/// the orientation of `f`.
pub open spec fn surface_image<P, C, S, FS: Fn(&S) -> S>(
    t0: &Topology<P, C, S>,
    t: &Topology<P, C, S>,
    f: &Face,
    r: &Face,
    fs: &FS,
) -> bool {
    &&& t0.surfaces().len() <= r.surface < t.surfaces().len()
    &&& maps_to(fs, t0.surface(f.surface), t.surface(r.surface))
    &&& r.orientation == f.orientation
}

proof fn lemma_ends_mapped_grow(vm1: Map<usize, Vertex>, vm2: Map<usize, Vertex>, w: Seq<Edge>)
    requires
        ends_mapped(vm1, w),
        vm1.submap_of(vm2),
    ensures
        ends_mapped(vm2, w),
{
    assert forall|i: int| 0 <= i < w.len() implies vm2.contains_key((#[trigger] w[i]).start.id)
        && vm2.contains_key(w[i].end.id) by {
        assert(vm1.contains_key(w[i].start.id) && vm1.contains_key(w[i].end.id));
    }
}

proof fn lemma_wire_via_grow(vm: Map<usize, Vertex>, em1: Map<usize, Edge>, em2: Map<usize, Edge>, w: Seq<Edge>, r: Seq<Edge>)
    requires
        wire_via(vm, em1, w, r),
        em1.submap_of(em2),
    ensures
        wire_via(vm, em2, w, r),
{
    assert forall|i: int| 0 <= i < w.len() implies em2.contains_key((#[trigger] w[i]).curve) && r[i]
        == image_edge(vm, em2, w[i]) by {
        let c = w[i].curve;
        assert(em1.dom().contains(c));
        assert(em2.dom().contains(c) && em1[c] == em2[c]);
    }
}

proof fn lemma_face_via_grow(vm: Map<usize, Vertex>, em1: Map<usize, Edge>, em2: Map<usize, Edge>, f: &Face, r: &Face)
    requires
        face_via(vm, em1, f, r),
        em1.submap_of(em2),
    ensures
        face_via(vm, em2, f, r),
{
    assert forall|b: int| 0 <= b < f.boundaries@.len() implies wire_via(
        vm,
        em2,
        (#[trigger] f.boundaries@[b]).edges@,
        r.boundaries@[b].edges@,
    ) by {
        lemma_wire_via_grow(vm, em1, em2, f.boundaries@[b].edges@, r.boundaries@[b].edges@);
    }
}

proof fn lemma_surface_image_grow<P, C, S, FS: Fn(&S) -> S>(
    t0: &Topology<P, C, S>,
    t1: &Topology<P, C, S>,
    t2: &Topology<P, C, S>,
    f: &Face,
    r: &Face,
    fs: &FS,
)
    requires
        surface_image(t0, t1, f, r, fs),
        t1.extended_by(t2),
    ensures
        surface_image(t0, t2, f, r, fs),
{
    assert(t2.surfaces()[r.surface as int] == t1.surfaces()[r.surface as int]);
}

/// A shell whose faces were built through one pair of sound maps is an image
/// of its source, sharing included.
proof fn lemma_shell_image<P, C, S, FP: Fn(&P) -> P, FC: Fn(&C) -> C, FS: Fn(&S) -> S>(
    t0: &Topology<P, C, S>,
    t: &Topology<P, C, S>,
    vm: Map<usize, Vertex>,
    em: Map<usize, Edge>,
    fp: &FP,
    fc: &FC,
    fs: &FS,
    s: &Shell,
    r: &Shell,
)
    requires
        t0.wf(),
        t0.valid_shell(s),
        vertex_map_ok(t0, t, vm, fp),
        edge_map_ok(t0, t, vm, em, fc),
        shell_ends_mapped(vm, s, s.faces@.len() as int, 0),
        r.faces@.len() == s.faces@.len(),
        forall|f: int|
            0 <= f < s.faces@.len() ==> face_via(vm, em, #[trigger] &s.faces@[f], &r.faces@[f])
                && surface_image(t0, t, &s.faces@[f], &r.faces@[f], fs),
    ensures
        shell_image(t0, t, s, r, fp, fc, fs),
{
    assert forall|f: int| 0 <= f < s.faces@.len() implies face_image(
        t0,
        t,
        #[trigger] &s.faces@[f],
        &r.faces@[f],
        fp,
        fc,
        fs,
    ) by {
        assert(face_via(vm, em, &s.faces@[f], &r.faces@[f]));
        assert(surface_image(t0, t, &s.faces@[f], &r.faces@[f], fs));
        assert(t0.valid_face(&s.faces@[f]));
        assert forall|b: int| 0 <= b < s.faces@[f].boundaries@.len() implies wire_image(
            t0,
            t,
            (#[trigger] s.faces@[f].boundaries@[b]).edges@,
            r.faces@[f].boundaries@[b].edges@,
            fp,
            fc,
        ) by {
            let w = s.faces@[f].boundaries@[b].edges@;
            assert(t0.valid_wire(&s.faces@[f].boundaries@[b]));
            assert(ends_mapped(vm, w));
            assert(wire_via(vm, em, w, r.faces@[f].boundaries@[b].edges@));
            lemma_wire_image(t0, t, vm, em, fp, fc, w, r.faces@[f].boundaries@[b].edges@);
        }
    }
    assert forall|f1: int, b1: int, i1: int, f2: int, b2: int, i2: int|
        shell_place(s, f1, b1, i1) && shell_place(s, f2, b2, i2) implies same_sharing(
        #[trigger] shell_edge(s, f1, b1, i1),
        #[trigger] shell_edge(s, f2, b2, i2),
        shell_edge(r, f1, b1, i1),
        shell_edge(r, f2, b2, i2),
    ) by {
        let w1 = s.faces@[f1].boundaries@[b1].edges@;
        let w2 = s.faces@[f2].boundaries@[b2].edges@;
        assert(ends_mapped(vm, w1));
        assert(ends_mapped(vm, w2));
        assert(face_via(vm, em, &s.faces@[f1], &r.faces@[f1]));
        assert(face_via(vm, em, &s.faces@[f2], &r.faces@[f2]));
        assert(wire_via(vm, em, w1, r.faces@[f1].boundaries@[b1].edges@));
        assert(wire_via(vm, em, w2, r.faces@[f2].boundaries@[b2].edges@));
        assert(em.contains_key(w1[i1].curve));
        assert(em.contains_key(w2[i2].curve));
        assert(vm.contains_key(w1[i1].start.id) && vm.contains_key(w1[i1].end.id));
        assert(vm.contains_key(w2[i2].start.id) && vm.contains_key(w2[i2].end.id));
        lemma_image_sharing(t0, t, vm, em, fp, fc, w1[i1], w2[i2]);
    }
}

impl Shell {
    /// A new shell, image of this one. One vertex map and one edge map serve
    /// all faces, so a vertex or an edge that several faces share is mapped
    /// once and the images share it in the same way.
    pub fn mapped<P, C, S, FP: Fn(&P) -> P, FC: Fn(&C) -> C, FS: Fn(&S) -> S>(
        &self,
        topo: &mut Topology<P, C, S>,
        point_mapping: &FP,
        curve_mapping: &FC,
        surface_mapping: &FS,
    ) -> (r: Shell)
        requires
            mappable(old(topo), point_mapping, curve_mapping, surface_mapping),
            old(topo).valid_shell(self),
        ensures
            final(topo).wf(),
            old(topo).extended_by(final(topo)),
            shell_image(old(topo), final(topo), self, &r, point_mapping, curve_mapping, surface_mapping),
    {
        let ghost t0 = *topo;
        let mut vmap: HashMap<usize, Vertex> = HashMap::new();
        let mut edge_map: HashMap<usize, Edge> = HashMap::new();
        proof {
            t0.lemma_extended_by_refl();
        }
        let mut f: usize = 0;
        while f < self.faces.len()
            invariant
                mappable(topo, point_mapping, curve_mapping, surface_mapping),
                t0.wf(),
                t0.valid_shell(self),
                t0.extended_by(topo),
                vertex_map_ok(&t0, topo, vmap@, point_mapping),
                edge_map_ok(&t0, topo, vmap@, edge_map@, curve_mapping),
                edge_map@ == Map::<usize, Edge>::empty(),
                f <= self.faces@.len(),
                shell_ends_mapped(vmap@, self, f as int, 0),
            decreases self.faces@.len() - f,
        {
            let face = &self.faces[f];
            proof {
                assert(t0.valid_face(face));
            }
            let mut b: usize = 0;
            while b < face.boundaries.len()
                invariant
                    mappable(topo, point_mapping, curve_mapping, surface_mapping),
                    t0.wf(),
                    t0.valid_shell(self),
                    t0.valid_face(face),
                    f < self.faces@.len(),
                    *face == self.faces@[f as int],
                    t0.extended_by(topo),
                    vertex_map_ok(&t0, topo, vmap@, point_mapping),
                    edge_map_ok(&t0, topo, vmap@, edge_map@, curve_mapping),
                    edge_map@ == Map::<usize, Edge>::empty(),
                    b <= face.boundaries@.len(),
                    shell_ends_mapped(vmap@, self, f as int, b as int),
                decreases face.boundaries@.len() - b,
            {
                let ghost vm0 = vmap@;
                proof {
                    assert(t0.valid_wire(&face.boundaries@[b as int]));
                }
                map_wire_vertices(
                    &face.boundaries[b],
                    topo,
                    &mut vmap,
                    point_mapping,
                    curve_mapping,
                    surface_mapping,
                    Ghost(t0),
                    Ghost(edge_map@),
                );
                proof {
                    assert forall|g: int, c: int|
                        0 <= g < self.faces@.len() && 0 <= c < self.faces@[g].boundaries@.len() && (g
                            < f || (g == f && c < b + 1)) implies ends_mapped(
                        vmap@,
                        (#[trigger] self.faces@[g].boundaries@[c]).edges@,
                    ) by {
                        if g < f || c < b {
                            lemma_ends_mapped_grow(vm0, vmap@, self.faces@[g].boundaries@[c].edges@);
                        }
                    }
                }
                b = b + 1;
            }
            f = f + 1;
        }
        let ghost t1 = *topo;
        let mut shell = Shell::new();
        let mut f: usize = 0;
        proof {
            t1.lemma_extended_by_refl();
        }
        while f < self.faces.len()
            invariant
                mappable(topo, point_mapping, curve_mapping, surface_mapping),
                t0.wf(),
                t0.valid_shell(self),
                t0.extended_by(topo),
                vertex_map_ok(&t0, topo, vmap@, point_mapping),
                edge_map_ok(&t0, topo, vmap@, edge_map@, curve_mapping),
                shell_ends_mapped(vmap@, self, self.faces@.len() as int, 0),
                f <= self.faces@.len(),
                shell.faces@.len() == f,
                forall|g: int|
                    0 <= g < f ==> face_via(vmap@, edge_map@, #[trigger] &self.faces@[g], &shell.faces@[g])
                        && surface_image(&t0, topo, &self.faces@[g], &shell.faces@[g], surface_mapping),
            decreases self.faces@.len() - f,
        {
            let face = &self.faces[f];
            proof {
                assert(t0.valid_face(face));
            }
            let ghost em_face = edge_map@;
            let ghost t_face = *topo;
            proof {
                t_face.lemma_extended_by_refl();
            }
            let mut wires: Vec<Wire> = Vec::new();
            let mut b: usize = 0;
            while b < face.boundaries.len()
                invariant
                    mappable(topo, point_mapping, curve_mapping, surface_mapping),
                    t0.wf(),
                    t0.valid_shell(self),
                    t0.valid_face(face),
                    f < self.faces@.len(),
                    *face == self.faces@[f as int],
                    t0.extended_by(topo),
                    vertex_map_ok(&t0, topo, vmap@, point_mapping),
                    edge_map_ok(&t0, topo, vmap@, edge_map@, curve_mapping),
                    shell_ends_mapped(vmap@, self, self.faces@.len() as int, 0),
                    em_face.submap_of(edge_map@),
                    t_face.extended_by(topo),
                    b <= face.boundaries@.len(),
                    wires@.len() == b,
                    forall|c: int|
                        0 <= c < b ==> wire_via(
                            vmap@,
                            edge_map@,
                            (#[trigger] face.boundaries@[c]).edges@,
                            wires@[c].edges@,
                        ),
                decreases face.boundaries@.len() - b,
            {
                let ghost em0 = edge_map@;
                let ghost t_wire = *topo;
                proof {
                    assert(t0.valid_wire(&face.boundaries@[b as int]));
                    assert(ends_mapped(vmap@, self.faces@[f as int].boundaries@[b as int].edges@));
                }
                let w = map_wire_edges(
                    &face.boundaries[b],
                    topo,
                    &vmap,
                    &mut edge_map,
                    point_mapping,
                    curve_mapping,
                    surface_mapping,
                    Ghost(t0),
                );
                proof {
                    assert forall|c: int| 0 <= c < b implies wire_via(
                        vmap@,
                        edge_map@,
                        (#[trigger] face.boundaries@[c]).edges@,
                        wires@[c].edges@,
                    ) by {
                        lemma_wire_via_grow(vmap@, em0, edge_map@, face.boundaries@[c].edges@, wires@[c].edges@);
                    }
                    t_face.lemma_extended_by_trans(&t_wire, topo);
                    assert forall|k: usize| #[trigger] em_face.dom().contains(k) implies #[trigger] edge_map@.dom().contains(k)
                        && em_face[k] == edge_map@[k] by {
                        assert(em0.dom().contains(k) && em_face[k] == em0[k]);
                        assert(edge_map@.dom().contains(k) && em0[k] == edge_map@[k]);
                    }
                }
                wires.push(w);
                b = b + 1;
            }
            let ghost before = *topo;
            let surface = surface_mapping(topo.surface_ref(face.surface));
            let mut new_face = Face::debug_new(topo, wires, surface);
            if !face.orientation() {
                new_face.invert();
            }
            proof {
                t0.lemma_extended_by_trans(&before, topo);
                assert(before.surfaces()[face.surface as int] == t0.surfaces()[face.surface as int]);
                lemma_maps_grow(&t0, &before, topo, vmap@, edge_map@, point_mapping, curve_mapping);
                assert forall|g: int|
                    0 <= g < f implies face_via(vmap@, edge_map@, #[trigger] &self.faces@[g], &shell.faces@[g])
                        && surface_image(&t0, topo, &self.faces@[g], &shell.faces@[g], surface_mapping) by {
                    lemma_face_via_grow(vmap@, em_face, edge_map@, &self.faces@[g], &shell.faces@[g]);
                    t_face.lemma_extended_by_trans(&before, topo);
                    lemma_surface_image_grow(&t0, &t_face, topo, &self.faces@[g], &shell.faces@[g], surface_mapping);
                }
            }
            shell.push(new_face);
            f = f + 1;
        }
        proof {
            lemma_shell_image(&t0, topo, vmap@, edge_map@, point_mapping, curve_mapping, surface_mapping, self, &shell);
        }
        shell
    }
}

/// No face of `x` shares its surface cell with a face of `y`, and no edge of
/// `x` shares a cell with an edge of `y`.
pub open spec fn shells_apart(x: &Shell, y: &Shell) -> bool {
    &&& forall|f1: int, f2: int|
        0 <= f1 < x.faces@.len() && 0 <= f2 < y.faces@.len() ==> (#[trigger] x.faces@[f1]).surface
            != (#[trigger] y.faces@[f2]).surface
    &&& forall|f1: int, b1: int, f2: int, b2: int|
        0 <= f1 < x.faces@.len() && 0 <= b1 < x.faces@[f1].boundaries@.len() && 0 <= f2
            < y.faces@.len() && 0 <= b2 < y.faces@[f2].boundaries@.len() ==> wires_apart(
            (#[trigger] x.faces@[f1].boundaries@[b1]).edges@,
            (#[trigger] y.faces@[f2].boundaries@[b2]).edges@,
        )
}

/// Every cell of `s` is a point cell from `np` on, a curve cell from `nc` on
/// or a surface cell from `ns` on.
pub open spec fn shell_from(s: &Shell, np: int, nc: int, ns: int) -> bool {
    &&& forall|f: int| 0 <= f < s.faces@.len() ==> ns <= (#[trigger] s.faces@[f]).surface
    &&& forall|f: int, b: int|
        0 <= f < s.faces@.len() && 0 <= b < s.faces@[f].boundaries@.len() ==> wire_from(
            (#[trigger] s.faces@[f].boundaries@[b]).edges@,
            np,
            nc,
        )
}

/// Every cell of `s` is a point cell below `np`, a curve cell below `nc` or a
/// surface cell below `ns`.
pub open spec fn shell_below(s: &Shell, np: int, nc: int, ns: int) -> bool {
    &&& forall|f: int| 0 <= f < s.faces@.len() ==> (#[trigger] s.faces@[f]).surface < ns
    &&& forall|f: int, b: int|
        0 <= f < s.faces@.len() && 0 <= b < s.faces@[f].boundaries@.len() ==> wire_below(
            (#[trigger] s.faces@[f].boundaries@[b]).edges@,
            np,
            nc,
        )
}

/// The image made while the topology grew from `ti` to `tj` lies in the cells
/// added meanwhile.
proof fn lemma_shell_image_cells<P, C, S, FP: Fn(&P) -> P, FC: Fn(&C) -> C, FS: Fn(&S) -> S>(
    ti: &Topology<P, C, S>,
    tj: &Topology<P, C, S>,
    s: &Shell,
    r: &Shell,
    fp: &FP,
    fc: &FC,
    fs: &FS,
)
    requires
        shell_image(ti, tj, s, r, fp, fc, fs),
    ensures
        shell_from(r, ti.points().len() as int, ti.curves().len() as int, ti.surfaces().len() as int),
        shell_below(r, tj.points().len() as int, tj.curves().len() as int, tj.surfaces().len() as int),
{
    assert forall|f: int| 0 <= f < r.faces@.len() implies ti.surfaces().len() <= (#[trigger] r.faces@[f]).surface
        && r.faces@[f].surface < tj.surfaces().len() by {
        assert(face_image(ti, tj, &s.faces@[f], &r.faces@[f], fp, fc, fs));
    }
    assert forall|f: int, b: int|
        0 <= f < r.faces@.len() && 0 <= b < r.faces@[f].boundaries@.len() implies wire_from(
        (#[trigger] r.faces@[f].boundaries@[b]).edges@,
        ti.points().len() as int,
        ti.curves().len() as int,
    ) && wire_below(r.faces@[f].boundaries@[b].edges@, tj.points().len() as int, tj.curves().len() as int) by {
        assert(face_image(ti, tj, &s.faces@[f], &r.faces@[f], fp, fc, fs));
        assert(wire_image(ti, tj, s.faces@[f].boundaries@[b].edges@, r.faces@[f].boundaries@[b].edges@, fp, fc));
        lemma_wire_image_cells(ti, tj, s.faces@[f].boundaries@[b].edges@, r.faces@[f].boundaries@[b].edges@, fp, fc);
    }
}

proof fn lemma_shell_below_grow(s: &Shell, np: int, nc: int, ns: int, np2: int, nc2: int, ns2: int)
    requires
        shell_below(s, np, nc, ns),
        np <= np2,
        nc <= nc2,
        ns <= ns2,
    ensures
        shell_below(s, np2, nc2, ns2),
{
    assert forall|f: int, b: int|
        0 <= f < s.faces@.len() && 0 <= b < s.faces@[f].boundaries@.len() implies wire_below(
        (#[trigger] s.faces@[f].boundaries@[b]).edges@,
        np2,
        nc2,
    ) by {
        lemma_wire_below_grow(s.faces@[f].boundaries@[b].edges@, np, nc, np2, nc2);
    }
}

/// Shells in cells below a bound and shells in cells from it share no cell.
proof fn lemma_shells_apart(x: &Shell, y: &Shell, np: int, nc: int, ns: int)
    requires
        shell_below(x, np, nc, ns),
        shell_from(y, np, nc, ns),
    ensures
        shells_apart(x, y),
        shells_apart(y, x),
{
    assert forall|f1: int, f2: int| 0 <= f1 < x.faces@.len() && 0 <= f2 < y.faces@.len() implies (
    #[trigger] x.faces@[f1]).surface != (#[trigger] y.faces@[f2]).surface by {
    }
    assert forall|f1: int, f2: int| 0 <= f1 < y.faces@.len() && 0 <= f2 < x.faces@.len() implies (
    #[trigger] y.faces@[f1]).surface != (#[trigger] x.faces@[f2]).surface by {
    }
    assert forall|f1: int, b1: int, f2: int, b2: int|
        0 <= f1 < x.faces@.len() && 0 <= b1 < x.faces@[f1].boundaries@.len() && 0 <= f2
            < y.faces@.len() && 0 <= b2 < y.faces@[f2].boundaries@.len() implies wires_apart(
        (#[trigger] x.faces@[f1].boundaries@[b1]).edges@,
        (#[trigger] y.faces@[f2].boundaries@[b2]).edges@,
    ) && wires_apart(y.faces@[f2].boundaries@[b2].edges@, x.faces@[f1].boundaries@[b1].edges@) by {
        lemma_wires_apart(x.faces@[f1].boundaries@[b1].edges@, y.faces@[f2].boundaries@[b2].edges@, np, nc);
    }
    assert forall|f1: int, b1: int, f2: int, b2: int|
        0 <= f1 < y.faces@.len() && 0 <= b1 < y.faces@[f1].boundaries@.len() && 0 <= f2
            < x.faces@.len() && 0 <= b2 < x.faces@[f2].boundaries@.len() implies wires_apart(
        (#[trigger] y.faces@[f1].boundaries@[b1]).edges@,
        (#[trigger] x.faces@[f2].boundaries@[b2]).edges@,
    ) by {
        lemma_wires_apart(x.faces@[f2].boundaries@[b2].edges@, y.faces@[f1].boundaries@[b1].edges@, np, nc);
    }
}

/// `lemma_edge_image_rebase`, for a shell.
proof fn lemma_shell_image_rebase<P, C, S, FP: Fn(&P) -> P, FC: Fn(&C) -> C, FS: Fn(&S) -> S>(
    t0: &Topology<P, C, S>,
    ti: &Topology<P, C, S>,
    t1: &Topology<P, C, S>,
    t2: &Topology<P, C, S>,
    s: &Shell,
    r: &Shell,
    fp: &FP,
    fc: &FC,
    fs: &FS,
)
    requires
        t0.wf(),
        t0.valid_shell(s),
        t0.extended_by(ti),
        t1.extended_by(t2),
        shell_image(ti, t1, s, r, fp, fc, fs),
    ensures
        shell_image(t0, t2, s, r, fp, fc, fs),
{
    assert forall|f: int| 0 <= f < s.faces@.len() implies face_image(
        t0,
        t2,
        #[trigger] &s.faces@[f],
        &r.faces@[f],
        fp,
        fc,
        fs,
    ) by {
        assert(t0.valid_face(&s.faces@[f]));
        lemma_face_image_rebase(t0, ti, t1, t2, &s.faces@[f], &r.faces@[f], fp, fc, fs);
    }
}

impl Solid {
    /// A new solid, image of this one: each shell mapped as a shell of its own.
    pub fn mapped<P, C, S, FP: Fn(&P) -> P, FC: Fn(&C) -> C, FS: Fn(&S) -> S>(
        &self,
        topo: &mut Topology<P, C, S>,
        point_mapping: &FP,
        curve_mapping: &FC,
        surface_mapping: &FS,
    ) -> (r: Solid)
        requires
            mappable(old(topo), point_mapping, curve_mapping, surface_mapping),
            old(topo).valid_solid(self),
        ensures
            final(topo).wf(),
            old(topo).extended_by(final(topo)),
            r.boundaries@.len() == self.boundaries@.len(),
            forall|k: int|
                0 <= k < self.boundaries@.len() ==> shell_image(
                    old(topo),
                    final(topo),
                    #[trigger] &self.boundaries@[k],
                    &r.boundaries@[k],
                    point_mapping,
                    curve_mapping,
                    surface_mapping,
                ),
            forall|k1: int, k2: int|
                0 <= k1 < r.boundaries@.len() && 0 <= k2 < r.boundaries@.len() && k1 != k2
                    ==> shells_apart(#[trigger] &r.boundaries@[k1], #[trigger] &r.boundaries@[k2]),
    {
        let ghost t0 = *topo;
        let mut shells: Vec<Shell> = Vec::new();
        let mut k: usize = 0;
        proof {
            t0.lemma_extended_by_refl();
        }
        while k < self.boundaries.len()
            invariant
                mappable(topo, point_mapping, curve_mapping, surface_mapping),
                t0.wf(),
                t0.valid_solid(self),
                t0.extended_by(topo),
                k <= self.boundaries@.len(),
                shells@.len() == k,
                forall|j: int|
                    0 <= j < k ==> shell_image(
                        &t0,
                        topo,
                        #[trigger] &self.boundaries@[j],
                        &shells@[j],
                        point_mapping,
                        curve_mapping,
                        surface_mapping,
                    ),
                forall|j: int|
                    0 <= j < k ==> shell_below(
                        #[trigger] &shells@[j],
                        topo.points().len() as int,
                        topo.curves().len() as int,
                        topo.surfaces().len() as int,
                    ),
                forall|k1: int, k2: int|
                    0 <= k1 < k && 0 <= k2 < k && k1 != k2 ==> shells_apart(
                        #[trigger] &shells@[k1],
                        #[trigger] &shells@[k2],
                    ),
            decreases self.boundaries@.len() - k,
        {
            let ghost before = *topo;
            let shell = &self.boundaries[k];
            proof {
                assert(t0.valid_shell(shell));
                assert forall|f: int| 0 <= f < shell.faces@.len() implies before.valid_face(
                    #[trigger] &shell.faces@[f],
                ) by {
                    let face = &shell.faces@[f];
                    assert(t0.valid_face(face));
                    assert(before.surfaces()[face.surface as int] == t0.surfaces()[face.surface as int]);
                    assert forall|b: int| 0 <= b < face.boundaries@.len() implies before.valid_wire(
                        #[trigger] &face.boundaries@[b],
                    ) by {
                        assert(t0.valid_wire(&face.boundaries@[b]));
                        assert forall|i: int| 0 <= i < face.boundaries@[b].edges@.len() implies before.valid_edge(
                            #[trigger] face.boundaries@[b].edges@[i],
                        ) by {
                            let e = face.boundaries@[b].edges@[i];
                            assert(t0.valid_edge(e));
                            assert(before.curve_ends()[e.curve as int] == t0.curve_ends()[e.curve as int]);
                        }
                    }
                }
            }
            let mapped = shell.mapped(topo, point_mapping, curve_mapping, surface_mapping);
            proof {
                t0.lemma_extended_by_trans(&before, topo);
                topo.lemma_extended_by_refl();
                lemma_shell_image_rebase(&t0, &before, topo, topo, shell, &mapped, point_mapping, curve_mapping, surface_mapping);
                assert forall|j: int| 0 <= j < k implies shell_image(
                    &t0,
                    topo,
                    #[trigger] &self.boundaries@[j],
                    &shells@[j],
                    point_mapping,
                    curve_mapping,
                    surface_mapping,
                ) by {
                    t0.lemma_extended_by_refl();
                    assert(t0.valid_shell(&self.boundaries@[j]));
                    lemma_shell_image_rebase(&t0, &t0, &before, topo, &self.boundaries@[j], &shells@[j], point_mapping, curve_mapping, surface_mapping);
                }
                lemma_shell_image_cells(&before, topo, shell, &mapped, point_mapping, curve_mapping, surface_mapping);
                let np = before.points().len() as int;
                let nc = before.curves().len() as int;
                let ns = before.surfaces().len() as int;
                assert forall|j: int| 0 <= j < k implies shells_apart(#[trigger] &shells@[j], &mapped)
                    && shells_apart(&mapped, &shells@[j]) && shell_below(
                    &shells@[j],
                    topo.points().len() as int,
                    topo.curves().len() as int,
                    topo.surfaces().len() as int,
                ) by {
                    lemma_shells_apart(&shells@[j], &mapped, np, nc, ns);
                    lemma_shell_below_grow(&shells@[j], np, nc, ns, topo.points().len() as int, topo.curves().len() as int, topo.surfaces().len() as int);
                }
            }
            let ghost old_shells = shells@;
            shells.push(mapped);
            proof {
                assert forall|k1: int, k2: int|
                    0 <= k1 < k + 1 && 0 <= k2 < k + 1 && k1 != k2 implies shells_apart(
                    #[trigger] &shells@[k1],
                    #[trigger] &shells@[k2],
                ) by {
                    if k1 < k && k2 < k {
                        assert(shells_apart(&old_shells[k1], &old_shells[k2]));
                    } else if k1 < k {
                        assert(shells_apart(&old_shells[k1], &mapped));
                    } else {
                        assert(shells_apart(&mapped, &old_shells[k2]));
                    }
                }
                assert forall|j: int| 0 <= j < k + 1 implies shell_below(
                    #[trigger] &shells@[j],
                    topo.points().len() as int,
                    topo.curves().len() as int,
                    topo.surfaces().len() as int,
                ) by {
                    if j < k {
                        assert(shell_below(&old_shells[j], topo.points().len() as int, topo.curves().len() as int, topo.surfaces().len() as int));
                    }
                }
            }
            k = k + 1;
        }
        Solid::debug_new(shells)
    }
}

} // verus!
