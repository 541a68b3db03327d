use vstd::prelude::*;

verus! {

/// State of the lock that guards one attribute cell.
#[derive(Clone, Copy, PartialEq, Eq, Structural, Debug)]
pub enum LockState {
    Free,
    Held,
    Poisoned,
}

/// Why an attempt to lock an attribute cell failed.
#[derive(Clone, Copy, PartialEq, Eq, Structural, Debug)]
pub enum LockError {
    /// The cell is held by another guard.
    WouldBlock,
    /// A previous holder gave the cell up abnormally.
    Poisoned,
}

/// Identity of a vertex: the index of its point cell.
pub type VertexID = usize;

/// Identity of an edge: the index of its curve cell.
pub type EdgeID = usize;

/// Identity of a face: the index of its surface cell.
pub type FaceID = usize;

/// A vertex handle. Copies of one handle share one point cell; two handles are
/// equal exactly when they name the same cell.
#[derive(Clone, Copy, Eq, Hash, Debug)]
pub struct Vertex {
    pub id: VertexID,
}

impl PartialEq for Vertex {
    /// Vertices are equal when they share their point cell, whatever it holds.
    fn eq(&self, other: &Vertex) -> (r: bool)
        ensures
            r == (self.id == other.id),
    {
        self.id == other.id
    }
}

impl vstd::std_specs::cmp::PartialEqSpecImpl for Vertex {
    open spec fn obeys_eq_spec() -> bool {
        true
    }

    open spec fn eq_spec(&self, other: &Vertex) -> bool {
        self.id == other.id
    }
}

/// The cells of a topology: one point per vertex, one curve per edge, one
/// surface per face, each with its own lock. A cell's index is its identity and
/// never changes; cells are only ever appended. Whoever has the store to itself
/// reads any cell; a write goes through the guard of a held lock, so holders
/// that give the store up between steps (threads sharing it) keep their cells.
pub struct Topology<P, C, S> {
    points: Vec<P>,
    point_locks: Vec<LockState>,
    curves: Vec<C>,
    curve_ends: Vec<(Vertex, Vertex)>,
    curve_locks: Vec<LockState>,
    surfaces: Vec<S>,
    surface_locks: Vec<LockState>,
}

/// The three kinds of attribute cell.
#[derive(Clone, Copy, PartialEq, Eq, Structural, Debug)]
pub enum CellKind {
    Point,
    Curve,
    Surface,
}

/// Handed out when a lock on one cell was acquired; it names the cell.
pub struct CellGuard {
    kind: CellKind,
    cell: usize,
}

impl CellGuard {
    pub closed spec fn kind(&self) -> CellKind {
        self.kind
    }

    pub closed spec fn cell(&self) -> usize {
        self.cell
    }

    /// Kind of the guarded cell.
    pub fn cell_kind(&self) -> (r: CellKind)
        ensures
            r == self.kind(),
    {
        self.kind
    }

    /// Index of the guarded cell.
    pub fn index(&self) -> (r: usize)
        ensures
            r == self.cell(),
    {
        self.cell
    }
}

/// Tries to take the lock at `i` without waiting.
fn try_acquire(locks: &mut Vec<LockState>, i: usize) -> (r: Result<(), LockError>)
    requires
        i < old(locks).len(),
    ensures
        old(locks)@[i as int] == LockState::Free ==> r == Ok::<(), LockError>(())
            && final(locks)@ == old(locks)@.update(i as int, LockState::Held),
        old(locks)@[i as int] == LockState::Held ==> r == Err::<(), LockError>(
            LockError::WouldBlock,
        ) && final(locks)@ == old(locks)@,
        old(locks)@[i as int] == LockState::Poisoned ==> r == Err::<(), LockError>(
            LockError::Poisoned,
        ) && final(locks)@ == old(locks)@,
{
    match locks[i] {
        LockState::Free => {
            locks.set(i, LockState::Held);
            Ok(())
        },
        LockState::Held => Err(LockError::WouldBlock),
        LockState::Poisoned => Err(LockError::Poisoned),
    }
}

/// Sets the state of the lock at `i`.
fn set_lock(locks: &mut Vec<LockState>, i: usize, s: LockState)
    requires
        i < old(locks).len(),
    ensures
        final(locks)@ == old(locks)@.update(i as int, s),
{
    locks.set(i, s);
}

impl<P, C, S> Topology<P, C, S> {
    /// Every cell has a lock, every curve has its two distinct end vertices.
    pub open spec fn wf(&self) -> bool {
        &&& self.point_locks().len() == self.points().len()
        &&& self.curve_locks().len() == self.curves().len()
        &&& self.curve_ends().len() == self.curves().len()
        &&& self.surface_locks().len() == self.surfaces().len()
        &&& self.ends_valid()
    }

    pub closed spec fn ends_valid(&self) -> bool {
        forall|c: int|
            0 <= c < self.curve_ends.len() ==> {
                &&& (#[trigger] self.curve_ends@[c]).0.id < self.points.len()
                &&& self.curve_ends@[c].1.id < self.points.len()
                &&& self.curve_ends@[c].0 != self.curve_ends@[c].1
            }
    }

    /// Values of the point cells, by identity.
    pub closed spec fn points(&self) -> Seq<P> {
        self.points@
    }

    /// Values of the curve cells, by identity.
    pub closed spec fn curves(&self) -> Seq<C> {
        self.curves@
    }

    /// The two absolute end vertices that each curve cell was made with.
    pub closed spec fn curve_ends(&self) -> Seq<(Vertex, Vertex)> {
        self.curve_ends@
    }

    /// Values of the surface cells, by identity.
    pub closed spec fn surfaces(&self) -> Seq<S> {
        self.surfaces@
    }

    pub closed spec fn point_locks(&self) -> Seq<LockState> {
        self.point_locks@
    }

    pub closed spec fn curve_locks(&self) -> Seq<LockState> {
        self.curve_locks@
    }

    pub closed spec fn surface_locks(&self) -> Seq<LockState> {
        self.surface_locks@
    }

    /// Lock states of the cells of one kind.
    pub open spec fn locks(&self, k: CellKind) -> Seq<LockState> {
        match k {
            CellKind::Point => self.point_locks(),
            CellKind::Curve => self.curve_locks(),
            CellKind::Surface => self.surface_locks(),
        }
    }

    /// The values of all cells are those of `other`.
    pub open spec fn same_values(&self, other: &Self) -> bool {
        &&& self.points() == other.points()
        &&& self.curves() == other.curves()
        &&& self.curve_ends() == other.curve_ends()
        &&& self.surfaces() == other.surfaces()
    }

    /// The lock states are those of `other`, but at cell `i` of kind `k`, which is `s`.
    pub open spec fn locks_updated(&self, other: &Self, k: CellKind, i: usize, s: LockState) -> bool {
        &&& forall|j: CellKind| j != k ==> #[trigger] self.locks(j) == other.locks(j)
        &&& self.locks(k) == other.locks(k).update(i as int, s)
    }

    pub open spec fn point(&self, v: Vertex) -> P {
        self.points()[v.id as int]
    }

    pub open spec fn curve(&self, c: EdgeID) -> C {
        self.curves()[c as int]
    }

    pub open spec fn surface(&self, s: FaceID) -> S {
        self.surfaces()[s as int]
    }

    pub open spec fn valid_vertex(&self, v: Vertex) -> bool {
        v.id < self.points().len()
    }

    /// `other` holds every cell of `self`, with the same value and lock state.
    pub open spec fn extended_by(&self, other: &Self) -> bool {
        &&& self.points().len() <= other.points().len()
        &&& self.curves().len() <= other.curves().len()
        &&& self.surfaces().len() <= other.surfaces().len()
        &&& forall|i: int|
            0 <= i < self.points().len() ==> #[trigger] other.points()[i] == self.points()[i]
        &&& forall|i: int|
            0 <= i < self.curves().len() ==> #[trigger] other.curves()[i] == self.curves()[i]
        &&& forall|i: int|
            0 <= i < self.curves().len() ==> #[trigger] other.curve_ends()[i]
                == self.curve_ends()[i]
        &&& forall|i: int|
            0 <= i < self.surfaces().len() ==> #[trigger] other.surfaces()[i]
                == self.surfaces()[i]
        &&& forall|i: int|
            0 <= i < self.points().len() ==> #[trigger] other.point_locks()[i]
                == self.point_locks()[i]
        &&& forall|i: int|
            0 <= i < self.curves().len() ==> #[trigger] other.curve_locks()[i]
                == self.curve_locks()[i]
        &&& forall|i: int|
            0 <= i < self.surfaces().len() ==> #[trigger] other.surface_locks()[i]
                == self.surface_locks()[i]
    }

    /// The end vertices of every curve cell are two distinct valid vertices.
    pub proof fn lemma_curve_ends(&self, c: int)
        requires
            self.wf(),
            0 <= c < self.curves().len(),
        ensures
            self.valid_vertex(self.curve_ends()[c].0),
            self.valid_vertex(self.curve_ends()[c].1),
            self.curve_ends()[c].0 != self.curve_ends()[c].1,
    {
        assert(self.curve_ends@[c].0.id < self.points.len());
    }

    pub proof fn lemma_extended_by_refl(&self)
        ensures
            self.extended_by(self),
    {
    }

    pub proof fn lemma_extended_by_trans(&self, b: &Self, c: &Self)
        requires
            self.extended_by(b),
            b.extended_by(c),
        ensures
            self.extended_by(c),
    {
    }

    /// An empty topology.
    pub fn new() -> (r: Self)
        ensures
            r.wf(),
            r.points().len() == 0,
            r.curves().len() == 0,
            r.surfaces().len() == 0,
    {
        Topology {
            points: Vec::new(),
            point_locks: Vec::new(),
            curves: Vec::new(),
            curve_ends: Vec::new(),
            curve_locks: Vec::new(),
            surfaces: Vec::new(),
            surface_locks: Vec::new(),
        }
    }

    /// Allocates a free point cell.
    pub fn add_point(&mut self, p: P) -> (v: Vertex)
        requires
            old(self).wf(),
        ensures
            final(self).wf(),
            old(self).extended_by(final(self)),
            v.id == old(self).points().len(),
            final(self).points() == old(self).points().push(p),
            final(self).point_locks() == old(self).point_locks().push(LockState::Free),
            final(self).curves() == old(self).curves(),
            final(self).curve_ends() == old(self).curve_ends(),
            final(self).surfaces() == old(self).surfaces(),
    {
        let id = self.points.len();
        self.points.push(p);
        self.point_locks.push(LockState::Free);
        Vertex { id }
    }

    /// Allocates a free curve cell running from `front` to `back`.
    pub fn add_curve(&mut self, front: Vertex, back: Vertex, c: C) -> (r: EdgeID)
        requires
            old(self).wf(),
            old(self).valid_vertex(front),
            old(self).valid_vertex(back),
            front != back,
        ensures
            final(self).wf(),
            old(self).extended_by(final(self)),
            r == old(self).curves().len(),
            final(self).curves() == old(self).curves().push(c),
            final(self).curve_ends() == old(self).curve_ends().push((front, back)),
            final(self).curve_locks() == old(self).curve_locks().push(LockState::Free),
            final(self).points() == old(self).points(),
            final(self).surfaces() == old(self).surfaces(),
    {
        let id = self.curves.len();
        self.curves.push(c);
        self.curve_ends.push((front, back));
        self.curve_locks.push(LockState::Free);
        proof {
            assert forall|c: int| 0 <= c < self.curve_ends.len() implies {
                &&& (#[trigger] self.curve_ends@[c]).0.id < self.points.len()
                &&& self.curve_ends@[c].1.id < self.points.len()
                &&& self.curve_ends@[c].0 != self.curve_ends@[c].1
            } by {
                if c < id {
                    assert(self.curve_ends@[c] == old(self).curve_ends@[c]);
                }
            }
        }
        id
    }

    /// Allocates a free surface cell.
    pub fn add_surface(&mut self, s: S) -> (r: FaceID)
        requires
            old(self).wf(),
        ensures
            final(self).wf(),
            old(self).extended_by(final(self)),
            r == old(self).surfaces().len(),
            final(self).surfaces() == old(self).surfaces().push(s),
            final(self).surface_locks() == old(self).surface_locks().push(LockState::Free),
            final(self).points() == old(self).points(),
            final(self).curves() == old(self).curves(),
            final(self).curve_ends() == old(self).curve_ends(),
    {
        let id = self.surfaces.len();
        self.surfaces.push(s);
        self.surface_locks.push(LockState::Free);
        id
    }

    /// The lock state of cell `i` of kind `k`.
    pub fn lock_state(&self, k: CellKind, i: usize) -> (r: LockState)
        requires
            self.wf(),
            i < self.locks(k).len(),
        ensures
            r == self.locks(k)[i as int],
    {
        match k {
            CellKind::Point => self.point_locks[i],
            CellKind::Curve => self.curve_locks[i],
            CellKind::Surface => self.surface_locks[i],
        }
    }

    /// Number of point cells.
    pub fn points_len(&self) -> (r: usize)
        ensures
            r == self.points().len(),
    {
        self.points.len()
    }

    /// Number of curve cells.
    pub fn curves_len(&self) -> (r: usize)
        ensures
            r == self.curves().len(),
    {
        self.curves.len()
    }

    /// Number of surface cells.
    pub fn surfaces_len(&self) -> (r: usize)
        ensures
            r == self.surfaces().len(),
    {
        self.surfaces.len()
    }

    /// The value of a point cell.
    pub fn point_ref(&self, v: Vertex) -> (r: &P)
        requires
            self.valid_vertex(v),
        ensures
            *r == self.point(v),
    {
        &self.points[v.id]
    }

    /// The value of a curve cell.
    pub fn curve_ref(&self, c: EdgeID) -> (r: &C)
        requires
            c < self.curves().len(),
        ensures
            *r == self.curve(c),
    {
        &self.curves[c]
    }

    /// The value of a surface cell.
    pub fn surface_ref(&self, s: FaceID) -> (r: &S)
        requires
            s < self.surfaces().len(),
        ensures
            *r == self.surface(s),
    {
        &self.surfaces[s]
    }

    /// Tries to lock cell `i` of kind `k` without waiting: fails with
    /// `WouldBlock` while a guard holds it, and with `Poisoned` after a holder
    /// gave it up abnormally.
    pub fn try_lock(&mut self, k: CellKind, i: usize) -> (r: Result<CellGuard, LockError>)
        requires
            old(self).wf(),
            i < old(self).locks(k).len(),
        ensures
            final(self).wf(),
            final(self).same_values(old(self)),
            old(self).locks(k)[i as int] == LockState::Free ==> r.is_ok() && r->Ok_0.kind() == k
                && r->Ok_0.cell() == i && final(self).locks_updated(old(self), k, i, LockState::Held),
            old(self).locks(k)[i as int] == LockState::Held ==> r == Err::<CellGuard, LockError>(
                LockError::WouldBlock,
            ),
            old(self).locks(k)[i as int] == LockState::Poisoned ==> r == Err::<
                CellGuard,
                LockError,
            >(LockError::Poisoned),
            old(self).locks(k)[i as int] != LockState::Free ==> forall|j: CellKind|
                #[trigger] final(self).locks(j) == old(self).locks(j),
    {
        let acquired = match k {
            CellKind::Point => try_acquire(&mut self.point_locks, i),
            CellKind::Curve => try_acquire(&mut self.curve_locks, i),
            CellKind::Surface => try_acquire(&mut self.surface_locks, i),
        };
        match acquired {
            Ok(()) => Ok(CellGuard { kind: k, cell: i }),
            Err(e) => Err(e),
        }
    }

    /// Sets the lock state of cell `i` of kind `k`.
    fn set_lock_state(&mut self, k: CellKind, i: usize, s: LockState)
        requires
            old(self).wf(),
            i < old(self).locks(k).len(),
        ensures
            final(self).wf(),
            final(self).same_values(old(self)),
            final(self).locks_updated(old(self), k, i, s),
    {
        match k {
            CellKind::Point => set_lock(&mut self.point_locks, i, s),
            CellKind::Curve => set_lock(&mut self.curve_locks, i, s),
            CellKind::Surface => set_lock(&mut self.surface_locks, i, s),
        }
    }

    /// Releases a held cell; a later lock of it succeeds.
    pub fn unlock(&mut self, g: CellGuard)
        requires
            old(self).wf(),
            g.cell() < old(self).locks(g.kind()).len(),
        ensures
            final(self).wf(),
            final(self).same_values(old(self)),
            final(self).locks_updated(old(self), g.kind(), g.cell(), LockState::Free),
    {
        self.set_lock_state(g.kind, g.cell, LockState::Free);
    }

    /// Gives a held cell up abnormally: every later lock of it reports `Poisoned`
    /// until `clear_poison` is called.
    pub fn poison(&mut self, g: CellGuard)
        requires
            old(self).wf(),
            g.cell() < old(self).locks(g.kind()).len(),
        ensures
            final(self).wf(),
            final(self).same_values(old(self)),
            final(self).locks_updated(old(self), g.kind(), g.cell(), LockState::Poisoned),
    {
        self.set_lock_state(g.kind, g.cell, LockState::Poisoned);
    }

    /// Declares the content of a poisoned cell trusted again: it becomes free.
    pub fn clear_poison(&mut self, k: CellKind, i: usize)
        requires
            old(self).wf(),
            i < old(self).locks(k).len(),
        ensures
            final(self).wf(),
            final(self).same_values(old(self)),
            old(self).locks(k)[i as int] == LockState::Poisoned ==> final(self).locks_updated(
                old(self),
                k,
                i,
                LockState::Free,
            ),
            old(self).locks(k)[i as int] != LockState::Poisoned ==> forall|j: CellKind|
                #[trigger] final(self).locks(j) == old(self).locks(j),
    {
        let poisoned = match k {
            CellKind::Point => self.point_locks[i] == LockState::Poisoned,
            CellKind::Curve => self.curve_locks[i] == LockState::Poisoned,
            CellKind::Surface => self.surface_locks[i] == LockState::Poisoned,
        };
        if poisoned {
            self.set_lock_state(k, i, LockState::Free);
        }
    }

    /// Writes the point cell that `g` holds.
    pub fn set_point(&mut self, g: &CellGuard, p: P)
        requires
            old(self).wf(),
            g.kind() == CellKind::Point,
            g.cell() < old(self).points().len(),
            old(self).point_locks()[g.cell() as int] == LockState::Held,
        ensures
            final(self).wf(),
            final(self).points() == old(self).points().update(g.cell() as int, p),
            final(self).curves() == old(self).curves(),
            final(self).curve_ends() == old(self).curve_ends(),
            final(self).surfaces() == old(self).surfaces(),
            forall|k: CellKind| #[trigger] final(self).locks(k) == old(self).locks(k),
    {
        self.points.set(g.cell, p);
    }

    /// Writes the curve cell that `g` holds.
    pub fn set_curve(&mut self, g: &CellGuard, c: C)
        requires
            old(self).wf(),
            g.kind() == CellKind::Curve,
            g.cell() < old(self).curves().len(),
            old(self).curve_locks()[g.cell() as int] == LockState::Held,
        ensures
            final(self).wf(),
            final(self).curves() == old(self).curves().update(g.cell() as int, c),
            final(self).points() == old(self).points(),
            final(self).curve_ends() == old(self).curve_ends(),
            final(self).surfaces() == old(self).surfaces(),
            forall|k: CellKind| #[trigger] final(self).locks(k) == old(self).locks(k),
    {
        self.curves.set(g.cell, c);
    }

    /// Writes the surface cell that `g` holds.
    pub fn set_surface(&mut self, g: &CellGuard, s: S)
        requires
            old(self).wf(),
            g.kind() == CellKind::Surface,
            g.cell() < old(self).surfaces().len(),
            old(self).surface_locks()[g.cell() as int] == LockState::Held,
        ensures
            final(self).wf(),
            final(self).surfaces() == old(self).surfaces().update(g.cell() as int, s),
            final(self).points() == old(self).points(),
            final(self).curves() == old(self).curves(),
            final(self).curve_ends() == old(self).curve_ends(),
            forall|k: CellKind| #[trigger] final(self).locks(k) == old(self).locks(k),
    {
        self.surfaces.set(g.cell, s);
    }

    /// The absolute end vertices of a curve cell.
    pub fn curve_ends_of(&self, c: EdgeID) -> (r: (Vertex, Vertex))
        requires
            c < self.curves().len(),
            self.wf(),
        ensures
            r == self.curve_ends()[c as int],
            self.valid_vertex(r.0),
            self.valid_vertex(r.1),
            r.0 != r.1,
    {
        self.curve_ends[c]
    }
}

} // verus!
