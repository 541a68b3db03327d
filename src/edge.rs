use vstd::prelude::*;

use crate::store::{CellGuard, CellKind, EdgeID, LockError, LockState, Topology, Vertex};

verus! {

/// Why a validating constructor refused its input.
#[derive(Clone, Copy, PartialEq, Eq, Structural, Debug)]
pub enum TopologyError {
    /// The two end vertices of an edge are the same vertex.
    SameVertex,
    /// A boundary wire has no edge.
    EmptyWire,
    /// A boundary wire does not end where it starts.
    NotClosedWire,
    /// A boundary wire passes through one vertex twice.
    NotSimpleWire,
}

/// An edge handle: the curve cell that is its identity, the two absolute end
/// vertices that the curve was made with, and an orientation. With the
/// orientation `true` the edge runs from `start` to `end`, else the other way.
#[derive(Clone, Copy, Debug)]
pub struct Edge {
    pub start: Vertex,
    pub end: Vertex,
    pub curve: EdgeID,
    pub orientation: bool,
}

impl PartialEq for Edge {
    /// Edges are equal when they share their curve cell, whatever their orientation.
    fn eq(&self, other: &Edge) -> (r: bool)
        ensures
            r == (self.curve == other.curve),
    {
        self.curve == other.curve
    }
}

impl vstd::std_specs::cmp::PartialEqSpecImpl for Edge {
    open spec fn obeys_eq_spec() -> bool {
        true
    }

    open spec fn eq_spec(&self, other: &Edge) -> bool {
        self.curve == other.curve
    }
}

impl Edge {
    /// The vertex the edge starts from, by its orientation.
    pub open spec fn spec_front(self) -> Vertex {
        if self.orientation {
            self.start
        } else {
            self.end
        }
    }

    /// The vertex the edge ends at, by its orientation.
    pub open spec fn spec_back(self) -> Vertex {
        if self.orientation {
            self.end
        } else {
            self.start
        }
    }

    /// The same edge run the other way.
    pub open spec fn spec_inverse(self) -> Edge {
        Edge { orientation: !self.orientation, ..self }
    }

    /// Makes a new curve cell from `front` to `back` and returns its edge, or
    /// `SameVertex` when the two are one vertex.
    pub fn try_new<P, C, S>(topo: &mut Topology<P, C, S>, front: Vertex, back: Vertex, curve: C) -> (r:
        Result<Edge, TopologyError>)
        requires
            old(topo).wf(),
            old(topo).valid_vertex(front),
            old(topo).valid_vertex(back),
        ensures
            final(topo).wf(),
            old(topo).extended_by(final(topo)),
            front == back ==> r == Err::<Edge, TopologyError>(TopologyError::SameVertex)
                && *final(topo) == *old(topo),
            front != back ==> r is Ok && r->Ok_0.start == front && r->Ok_0.end == back
                && r->Ok_0.curve == old(topo).curves().len() && r->Ok_0.orientation
                && final(topo).curves() == old(topo).curves().push(curve) && final(topo).points()
                == old(topo).points() && final(topo).surfaces() == old(topo).surfaces(),
    {
        if front == back {
            proof {
                old(topo).lemma_extended_by_refl();
            }
            Err(TopologyError::SameVertex)
        } else {
            Ok(Edge::new(topo, front, back, curve))
        }
    }

    /// Makes a new curve cell from `front` to `back` and returns its edge.
    pub fn new<P, C, S>(topo: &mut Topology<P, C, S>, front: Vertex, back: Vertex, curve: C) -> (r: Edge)
        requires
            old(topo).wf(),
            old(topo).valid_vertex(front),
            old(topo).valid_vertex(back),
            front != back,
        ensures
            final(topo).wf(),
            old(topo).extended_by(final(topo)),
            r.start == front,
            r.end == back,
            r.curve == old(topo).curves().len(),
            r.orientation,
            final(topo).valid_edge(r),
            final(topo).curves() == old(topo).curves().push(curve),
            final(topo).points() == old(topo).points(),
            final(topo).surfaces() == old(topo).surfaces(),
    {
        Edge::debug_new(topo, front, back, curve)
    }

    /// Makes a new curve cell from `front` to `back` without checking the ends:
    /// for callers that know them to be distinct by construction.
    pub fn debug_new<P, C, S>(topo: &mut Topology<P, C, S>, front: Vertex, back: Vertex, curve: C) -> (r:
        Edge)
        requires
            old(topo).wf(),
            old(topo).valid_vertex(front),
            old(topo).valid_vertex(back),
            front != back,
        ensures
            final(topo).wf(),
            old(topo).extended_by(final(topo)),
            r.start == front,
            r.end == back,
            r.curve == old(topo).curves().len(),
            r.orientation,
            final(topo).valid_edge(r),
            final(topo).curves() == old(topo).curves().push(curve),
            final(topo).points() == old(topo).points(),
            final(topo).surfaces() == old(topo).surfaces(),
    {
        let c = topo.add_curve(front, back, curve);
        Edge { start: front, end: back, curve: c, orientation: true }
    }

    /// The vertex the edge starts from, by its orientation.
    pub fn front(&self) -> (r: Vertex)
        ensures
            r == self.spec_front(),
    {
        if self.orientation {
            self.start
        } else {
            self.end
        }
    }

    /// The vertex the edge ends at, by its orientation.
    pub fn back(&self) -> (r: Vertex)
        ensures
            r == self.spec_back(),
    {
        if self.orientation {
            self.end
        } else {
            self.start
        }
    }

    /// The vertex the curve starts from, whatever the orientation.
    pub fn absolute_front(&self) -> (r: Vertex)
        ensures
            r == self.start,
    {
        self.start
    }

    /// The vertex the curve ends at, whatever the orientation.
    pub fn absolute_back(&self) -> (r: Vertex)
        ensures
            r == self.end,
    {
        self.end
    }

    pub fn orientation(&self) -> (r: bool)
        ensures
            r == self.orientation,
    {
        self.orientation
    }

    /// The identity of the edge: that of its curve cell.
    pub fn id(&self) -> (r: EdgeID)
        ensures
            r == self.curve,
    {
        self.curve
    }

    /// Turns the edge round; the curve cell stays the same.
    pub fn invert(&mut self)
        ensures
            *final(self) == old(self).spec_inverse(),
    {
        self.orientation = !self.orientation;
    }

    /// The edge turned round, on the same curve cell.
    pub fn inverse(&self) -> (r: Edge)
        ensures
            r == self.spec_inverse(),
    {
        Edge { start: self.start, end: self.end, curve: self.curve, orientation: !self.orientation }
    }

    /// Tries to lock the curve cell without waiting.
    pub fn try_lock_curve<P, C, S>(&self, topo: &mut Topology<P, C, S>) -> (r: Result<
        CellGuard,
        LockError,
    >)
        requires
            old(topo).wf(),
            old(topo).valid_edge(*self),
        ensures
            final(topo).wf(),
            final(topo).same_values(old(topo)),
            old(topo).curve_locks()[self.curve as int] == LockState::Free ==> r.is_ok()
                && r->Ok_0.kind() == CellKind::Curve && r->Ok_0.cell() == self.curve
                && final(topo).locks_updated(old(topo), CellKind::Curve, self.curve, LockState::Held),
            old(topo).curve_locks()[self.curve as int] == LockState::Held ==> r == Err::<
                CellGuard,
                LockError,
            >(LockError::WouldBlock),
            old(topo).curve_locks()[self.curve as int] == LockState::Poisoned ==> r == Err::<
                CellGuard,
                LockError,
            >(LockError::Poisoned),
            old(topo).curve_locks()[self.curve as int] != LockState::Free ==> forall|j: CellKind|
                #[trigger] final(topo).locks(j) == old(topo).locks(j),
    {
        topo.try_lock(CellKind::Curve, self.curve)
    }

    /// Acquires the curve cell, which no guard holds; fails only when it is poisoned.
    pub fn lock_curve<P, C, S>(&self, topo: &mut Topology<P, C, S>) -> (r: Result<
        CellGuard,
        LockError,
    >)
        requires
            old(topo).wf(),
            old(topo).valid_edge(*self),
            old(topo).curve_locks()[self.curve as int] != LockState::Held,
        ensures
            final(topo).wf(),
            final(topo).same_values(old(topo)),
            old(topo).curve_locks()[self.curve as int] == LockState::Free ==> r.is_ok()
                && r->Ok_0.kind() == CellKind::Curve && r->Ok_0.cell() == self.curve
                && final(topo).locks_updated(old(topo), CellKind::Curve, self.curve, LockState::Held),
            old(topo).curve_locks()[self.curve as int] == LockState::Poisoned ==> r == Err::<
                CellGuard,
                LockError,
            >(LockError::Poisoned) && forall|j: CellKind|
                #[trigger] final(topo).locks(j) == old(topo).locks(j),
    {
        topo.try_lock(CellKind::Curve, self.curve)
    }
}

impl<P, C, S> Topology<P, C, S> {
    /// `e` names a curve cell of this topology with the end vertices it was made with.
    pub open spec fn valid_edge(&self, e: Edge) -> bool {
        &&& e.curve < self.curves().len()
        &&& self.curve_ends()[e.curve as int] == (e.start, e.end)
    }

    /// A valid edge has two distinct valid end vertices.
    pub proof fn lemma_valid_edge_ends(&self, e: Edge)
        requires
            self.wf(),
            self.valid_edge(e),
        ensures
            self.valid_vertex(e.start),
            self.valid_vertex(e.end),
            e.start != e.end,
    {
        self.lemma_curve_ends(e.curve as int);
    }
}

} // verus!
