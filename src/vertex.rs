use vstd::prelude::*;

use crate::store::{CellGuard, CellKind, LockError, LockState, Topology, Vertex, VertexID};

verus! {

impl Vertex {
    /// Allocates a new point cell holding `point` and returns its vertex.
    /// The new vertex differs from every vertex that existed before.
    pub fn new<P, C, S>(topo: &mut Topology<P, C, S>, point: P) -> (v: Vertex)
        requires
            old(topo).wf(),
        ensures
            final(topo).wf(),
            old(topo).extended_by(final(topo)),
            v.id == old(topo).points().len(),
            final(topo).points() == old(topo).points().push(point),
            final(topo).point_locks() == old(topo).point_locks().push(LockState::Free),
            final(topo).curves() == old(topo).curves(),
            final(topo).curve_ends() == old(topo).curve_ends(),
            final(topo).surfaces() == old(topo).surfaces(),
    {
        topo.add_point(point)
    }

    /// Allocates one new vertex for each of `points`, in order.
    pub fn news<P: Copy, C, S>(topo: &mut Topology<P, C, S>, points: &[P]) -> (r: Vec<Vertex>)
        requires
            old(topo).wf(),
        ensures
            final(topo).wf(),
            old(topo).extended_by(final(topo)),
            r.len() == points@.len(),
            final(topo).points() == old(topo).points() + points@,
            final(topo).curves() == old(topo).curves(),
            final(topo).curve_ends() == old(topo).curve_ends(),
            final(topo).surfaces() == old(topo).surfaces(),
            forall|i: int| 0 <= i < r.len() ==> (#[trigger] r@[i]).id == old(topo).points().len() + i,
    {
        let mut r: Vec<Vertex> = Vec::new();
        let mut i: usize = 0;
        proof {
            old(topo).lemma_extended_by_refl();
        }
        while i < points.len()
            invariant
                topo.wf(),
                old(topo).extended_by(topo),
                i <= points@.len(),
                r.len() == i,
                topo.points() == old(topo).points() + points@.subrange(0, i as int),
                topo.curves() == old(topo).curves(),
                topo.curve_ends() == old(topo).curve_ends(),
                topo.surfaces() == old(topo).surfaces(),
                forall|j: int| 0 <= j < i ==> (#[trigger] r@[j]).id == old(topo).points().len() + j,
            decreases points@.len() - i,
        {
            let ghost before = *topo;
            let v = Vertex::new(topo, points[i]);
            proof {
                before.lemma_extended_by_trans(&before, topo);
                old(topo).lemma_extended_by_trans(&before, topo);
                assert(points@.subrange(0, i + 1) =~= points@.subrange(0, i as int).push(points@[i as int]));
            }
            r.push(v);
            i = i + 1;
        }
        proof {
            assert(points@.subrange(0, i as int) =~= points@);
        }
        r
    }

    /// Tries to lock the point cell without waiting. Fails with `WouldBlock`
    /// while any guard holds it, and with `Poisoned` after a holder gave it up
    /// abnormally.
    pub fn try_lock_point<P, C, S>(&self, topo: &mut Topology<P, C, S>) -> (r: Result<
        CellGuard,
        LockError,
    >)
        requires
            old(topo).wf(),
            old(topo).valid_vertex(*self),
        ensures
            final(topo).wf(),
            final(topo).same_values(old(topo)),
            old(topo).point_locks()[self.id as int] == LockState::Free ==> r.is_ok()
                && r->Ok_0.kind() == CellKind::Point && r->Ok_0.cell() == self.id
                && final(topo).locks_updated(old(topo), CellKind::Point, self.id, LockState::Held),
            old(topo).point_locks()[self.id as int] == LockState::Held ==> r == Err::<
                CellGuard,
                LockError,
            >(LockError::WouldBlock),
            old(topo).point_locks()[self.id as int] == LockState::Poisoned ==> r == Err::<
                CellGuard,
                LockError,
            >(LockError::Poisoned),
            old(topo).point_locks()[self.id as int] != LockState::Free ==> forall|j: CellKind|
                #[trigger] final(topo).locks(j) == old(topo).locks(j),
    {
        topo.try_lock(CellKind::Point, self.id)
    }

    /// Acquires the point cell. A cell held by a guard is waited for by whoever
    /// shares the topology, so this is called only on a cell no guard holds; it
    /// then succeeds unless the cell is poisoned.
    pub fn lock_point<P, C, S>(&self, topo: &mut Topology<P, C, S>) -> (r: Result<
        CellGuard,
        LockError,
    >)
        requires
            old(topo).wf(),
            old(topo).valid_vertex(*self),
            old(topo).point_locks()[self.id as int] != LockState::Held,
        ensures
            final(topo).wf(),
            final(topo).same_values(old(topo)),
            old(topo).point_locks()[self.id as int] == LockState::Free ==> r.is_ok()
                && r->Ok_0.kind() == CellKind::Point && r->Ok_0.cell() == self.id
                && final(topo).locks_updated(old(topo), CellKind::Point, self.id, LockState::Held),
            old(topo).point_locks()[self.id as int] == LockState::Poisoned ==> r == Err::<
                CellGuard,
                LockError,
            >(LockError::Poisoned) && forall|j: CellKind|
                #[trigger] final(topo).locks(j) == old(topo).locks(j),
    {
        topo.try_lock(CellKind::Point, self.id)
    }

    /// The identity of the vertex: that of its point cell.
    pub fn id(&self) -> (r: VertexID)
        ensures
            r == self.id,
    {
        self.id
    }
}

} // verus!
