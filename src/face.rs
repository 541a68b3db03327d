use vstd::prelude::*;

use crate::edge::{Edge, TopologyError};
use crate::store::{CellGuard, CellKind, FaceID, LockError, LockState, Topology};
use crate::wire::Wire;

verus! {

/// A face handle: boundary wires (the outer one first, then the holes), the
/// surface cell that is its identity, and an orientation.
#[derive(Clone, Debug)]
pub struct Face {
    pub boundaries: Vec<Wire>,
    pub surface: FaceID,
    pub orientation: bool,
}

/// A collection of faces.
#[derive(Clone, Debug)]
pub struct Shell {
    pub faces: Vec<Face>,
}

/// A collection of shells: the outer boundary and the boundaries of voids.
#[derive(Clone, Debug)]
pub struct Solid {
    pub boundaries: Vec<Shell>,
}

impl PartialEq for Face {
    /// Faces are equal when they share their surface cell.
    fn eq(&self, other: &Face) -> (r: bool)
        ensures
            r == (self.surface == other.surface),
    {
        self.surface == other.surface
    }
}

impl vstd::std_specs::cmp::PartialEqSpecImpl for Face {
    open spec fn obeys_eq_spec() -> bool {
        true
    }

    open spec fn eq_spec(&self, other: &Face) -> bool {
        self.surface == other.surface
    }
}

/// Why `w` cannot bound a face, if it cannot.
pub open spec fn wire_error(w: Wire) -> Option<TopologyError> {
    if w.edges@.len() == 0 {
        Some(TopologyError::EmptyWire)
    } else if !w.spec_is_closed() {
        Some(TopologyError::NotClosedWire)
    } else if !w.spec_is_simple() {
        Some(TopologyError::NotSimpleWire)
    } else {
        None
    }
}

/// The two sequences of wires hold the same edges, wire by wire.
pub open spec fn same_wires(a: Seq<Wire>, b: Seq<Wire>) -> bool {
    &&& a.len() == b.len()
    &&& forall|i: int| 0 <= i < a.len() ==> (#[trigger] a[i]).edges@ == b[i].edges@
}

/// The error of the first wire of `bs` that cannot bound a face, if any.
pub open spec fn boundaries_error(bs: Seq<Wire>) -> Option<TopologyError>
    decreases bs.len(),
{
    if bs.len() == 0 {
        None
    } else {
        match boundaries_error(bs.drop_last()) {
            Some(e) => Some(e),
            None => wire_error(bs.last()),
        }
    }
}

/// The boundaries as a face of the given orientation runs them: each inverted
/// where the orientation is `false`.
pub open spec fn oriented_boundaries(bs: Seq<Wire>, orientation: bool) -> Seq<Seq<Edge>> {
    Seq::new(
        bs.len(),
        |i: int|
            if orientation {
                bs[i].edges@
            } else {
                bs[i].spec_inverse()
            },
    )
}

impl<P, C, S> Topology<P, C, S> {
    /// `f` names a surface cell of this topology and its boundary edges are valid.
    pub open spec fn valid_face(&self, f: &Face) -> bool {
        &&& f.surface < self.surfaces().len()
        &&& forall|i: int| 0 <= i < f.boundaries@.len() ==> self.valid_wire(#[trigger] &f.boundaries@[i])
    }

    pub open spec fn valid_shell(&self, s: &Shell) -> bool {
        forall|i: int| 0 <= i < s.faces@.len() ==> self.valid_face(#[trigger] &s.faces@[i])
    }

    pub open spec fn valid_solid(&self, s: &Solid) -> bool {
        forall|i: int| 0 <= i < s.boundaries@.len() ==> self.valid_shell(#[trigger] &s.boundaries@[i])
    }
}

impl Face {
    /// The first error among the boundaries, in order, or `None`.
    pub fn check_boundaries(boundaries: &Vec<Wire>) -> (r: Option<TopologyError>)
        ensures
            r == boundaries_error(boundaries@),
    {
        let mut i: usize = 0;
        while i < boundaries.len()
            invariant
                i <= boundaries@.len(),
                boundaries_error(boundaries@.subrange(0, i as int)) == None::<TopologyError>,
            decreases boundaries@.len() - i,
        {
            let w = &boundaries[i];
            proof {
                assert(boundaries@.subrange(0, i + 1).drop_last() =~= boundaries@.subrange(0, i as int));
            }
            if w.is_empty() {
                proof {
                    lemma_boundaries_error_prefix(boundaries@, i as int + 1);
                }
                return Some(TopologyError::EmptyWire);
            } else if !w.is_closed() {
                proof {
                    lemma_boundaries_error_prefix(boundaries@, i as int + 1);
                }
                return Some(TopologyError::NotClosedWire);
            } else if !w.is_simple() {
                proof {
                    lemma_boundaries_error_prefix(boundaries@, i as int + 1);
                }
                return Some(TopologyError::NotSimpleWire);
            }
            i = i + 1;
        }
        proof {
            assert(boundaries@.subrange(0, i as int) =~= boundaries@);
        }
        None
    }

    /// Makes a new surface cell and returns its face, bounded by `boundaries`,
    /// or the error of the first boundary that is empty, open or not simple.
    pub fn try_new<P, C, S>(topo: &mut Topology<P, C, S>, boundaries: Vec<Wire>, surface: S) -> (r:
        Result<Face, TopologyError>)
        requires
            old(topo).wf(),
        ensures
            final(topo).wf(),
            old(topo).extended_by(final(topo)),
            boundaries_error(boundaries@) is Some ==> r == Err::<Face, TopologyError>(
                boundaries_error(boundaries@)->Some_0,
            ) && *final(topo) == *old(topo),
            boundaries_error(boundaries@) is None ==> r is Ok && r->Ok_0.boundaries@ == boundaries@
                && r->Ok_0.surface == old(topo).surfaces().len() && r->Ok_0.orientation
                && final(topo).surfaces() == old(topo).surfaces().push(surface) && final(topo).points()
                == old(topo).points() && final(topo).curves() == old(topo).curves(),
    {
        match Face::check_boundaries(&boundaries) {
            Some(e) => {
                proof {
                    old(topo).lemma_extended_by_refl();
                }
                Err(e)
            },
            None => Ok(Face::debug_new(topo, boundaries, surface)),
        }
    }

    /// Makes a new surface cell and returns its face, bounded by `boundaries`,
    /// each of which is closed and simple.
    pub fn new<P, C, S>(topo: &mut Topology<P, C, S>, boundaries: Vec<Wire>, surface: S) -> (r: Face)
        requires
            old(topo).wf(),
            boundaries_error(boundaries@) is None,
        ensures
            final(topo).wf(),
            old(topo).extended_by(final(topo)),
            r.boundaries@ == boundaries@,
            r.surface == old(topo).surfaces().len(),
            r.orientation,
            final(topo).surfaces() == old(topo).surfaces().push(surface),
            final(topo).points() == old(topo).points(),
            final(topo).curves() == old(topo).curves(),
    {
        Face::debug_new(topo, boundaries, surface)
    }

    /// Makes a new surface cell and returns its face without checking the
    /// boundaries: for callers that know them to be sound by construction.
    pub fn debug_new<P, C, S>(topo: &mut Topology<P, C, S>, boundaries: Vec<Wire>, surface: S) -> (r:
        Face)
        requires
            old(topo).wf(),
        ensures
            final(topo).wf(),
            old(topo).extended_by(final(topo)),
            r.boundaries@ == boundaries@,
            r.surface == old(topo).surfaces().len(),
            r.orientation,
            final(topo).surfaces() == old(topo).surfaces().push(surface),
            final(topo).points() == old(topo).points(),
            final(topo).curves() == old(topo).curves(),
            final(topo).curve_ends() == old(topo).curve_ends(),
    {
        let s = topo.add_surface(surface);
        Face { boundaries, surface: s, orientation: true }
    }

    /// The boundary wires as stored, whatever the orientation.
    pub fn absolute_boundaries(&self) -> (r: &Vec<Wire>)
        ensures
            r@ == self.boundaries@,
    {
        &self.boundaries
    }

    /// The boundary wires as the face runs them: inverted where the orientation is `false`.
    pub fn boundaries(&self) -> (r: Vec<Wire>)
        ensures
            r@.len() == self.boundaries@.len(),
            forall|i: int|
                0 <= i < r@.len() ==> (#[trigger] r@[i]).edges@ == oriented_boundaries(
                    self.boundaries@,
                    self.orientation,
                )[i],
    {
        let mut r: Vec<Wire> = Vec::new();
        let mut i: usize = 0;
        while i < self.boundaries.len()
            invariant
                i <= self.boundaries@.len(),
                r@.len() == i,
                forall|j: int|
                    0 <= j < i ==> (#[trigger] r@[j]).edges@ == oriented_boundaries(
                        self.boundaries@,
                        self.orientation,
                    )[j],
            decreases self.boundaries@.len() - i,
        {
            if self.orientation {
                r.push(self.boundaries[i].clone_wire());
            } else {
                r.push(self.boundaries[i].inverse());
            }
            i = i + 1;
        }
        r
    }

    pub fn orientation(&self) -> (r: bool)
        ensures
            r == self.orientation,
    {
        self.orientation
    }

    /// The identity of the face: that of its surface cell.
    pub fn id(&self) -> (r: FaceID)
        ensures
            r == self.surface,
    {
        self.surface
    }

    /// Flips the face; the surface cell and the stored boundaries stay.
    pub fn invert(&mut self)
        ensures
            final(self).boundaries@ == old(self).boundaries@,
            final(self).surface == old(self).surface,
            final(self).orientation == !old(self).orientation,
    {
        self.orientation = !self.orientation;
    }

    /// The face flipped, on the same surface cell.
    pub fn inverse(&self) -> (r: Face)
        ensures
            same_wires(r.boundaries@, self.boundaries@),
            r.surface == self.surface,
            r.orientation == !self.orientation,
    {
        let mut r = self.clone_face();
        r.invert();
        r
    }

    /// A copy of the handle, on the same cells.
    pub fn clone_face(&self) -> (r: Face)
        ensures
            same_wires(r.boundaries@, self.boundaries@),
            r.surface == self.surface,
            r.orientation == self.orientation,
    {
        let mut boundaries: Vec<Wire> = Vec::new();
        let mut i: usize = 0;
        while i < self.boundaries.len()
            invariant
                i <= self.boundaries@.len(),
                boundaries@.len() == i,
                forall|j: int| 0 <= j < i ==> (#[trigger] boundaries@[j]).edges@ == self.boundaries@[j].edges@,
            decreases self.boundaries@.len() - i,
        {
            boundaries.push(self.boundaries[i].clone_wire());
            i = i + 1;
        }
        Face { boundaries, surface: self.surface, orientation: self.orientation }
    }

    /// Tries to lock the surface cell without waiting.
    pub fn try_lock_surface<P, C, S>(&self, topo: &mut Topology<P, C, S>) -> (r: Result<
        CellGuard,
        LockError,
    >)
        requires
            old(topo).wf(),
            old(topo).valid_face(self),
        ensures
            final(topo).wf(),
            final(topo).same_values(old(topo)),
            old(topo).surface_locks()[self.surface as int] == LockState::Free ==> r.is_ok()
                && r->Ok_0.kind() == CellKind::Surface && r->Ok_0.cell() == self.surface
                && final(topo).locks_updated(old(topo), CellKind::Surface, self.surface, LockState::Held),
            old(topo).surface_locks()[self.surface as int] == LockState::Held ==> r == Err::<
                CellGuard,
                LockError,
            >(LockError::WouldBlock),
            old(topo).surface_locks()[self.surface as int] == LockState::Poisoned ==> r == Err::<
                CellGuard,
                LockError,
            >(LockError::Poisoned),
            old(topo).surface_locks()[self.surface as int] != LockState::Free ==> forall|j: CellKind|
                #[trigger] final(topo).locks(j) == old(topo).locks(j),
    {
        topo.try_lock(CellKind::Surface, self.surface)
    }

    /// Acquires the surface cell, which no guard holds; fails only when it is poisoned.
    pub fn lock_surface<P, C, S>(&self, topo: &mut Topology<P, C, S>) -> (r: Result<
        CellGuard,
        LockError,
    >)
        requires
            old(topo).wf(),
            old(topo).valid_face(self),
            old(topo).surface_locks()[self.surface as int] != LockState::Held,
        ensures
            final(topo).wf(),
            final(topo).same_values(old(topo)),
            old(topo).surface_locks()[self.surface as int] == LockState::Free ==> r.is_ok()
                && r->Ok_0.kind() == CellKind::Surface && r->Ok_0.cell() == self.surface
                && final(topo).locks_updated(old(topo), CellKind::Surface, self.surface, LockState::Held),
            old(topo).surface_locks()[self.surface as int] == LockState::Poisoned ==> r == Err::<
                CellGuard,
                LockError,
            >(LockError::Poisoned) && forall|j: CellKind|
                #[trigger] final(topo).locks(j) == old(topo).locks(j),
    {
        topo.try_lock(CellKind::Surface, self.surface)
    }
}

/// Once a prefix of `bs` has an error, every longer prefix has the same one.
proof fn lemma_boundaries_error_prefix(bs: Seq<Wire>, n: int)
    requires
        0 <= n <= bs.len(),
    ensures
        boundaries_error(bs.subrange(0, n)) is Some ==> boundaries_error(bs) == boundaries_error(
            bs.subrange(0, n),
        ),
    decreases bs.len() - n,
{
    if n < bs.len() {
        lemma_boundaries_error_prefix(bs, n + 1);
        assert(bs.subrange(0, n + 1).drop_last() =~= bs.subrange(0, n));
    } else {
        assert(bs.subrange(0, n) =~= bs);
    }
}

impl Wire {
    /// A copy of the wire, on the same edges.
    pub fn clone_wire(&self) -> (r: Wire)
        ensures
            r.edges@ == self.edges@,
    {
        let mut edges: Vec<Edge> = Vec::new();
        let mut i: usize = 0;
        while i < self.edges.len()
            invariant
                i <= self.edges@.len(),
                edges@ == self.edges@.subrange(0, i as int),
            decreases self.edges@.len() - i,
        {
            edges.push(self.edges[i]);
            i = i + 1;
            proof {
                assert(edges@ =~= self.edges@.subrange(0, i as int));
            }
        }
        proof {
            assert(self.edges@.subrange(0, i as int) =~= self.edges@);
        }
        Wire { edges }
    }
}

impl Shell {
    /// An empty shell.
    pub fn new() -> (r: Shell)
        ensures
            r.faces@.len() == 0,
    {
        Shell { faces: Vec::new() }
    }

    /// The shell of the given faces, in order.
    pub fn from_faces(faces: Vec<Face>) -> (r: Shell)
        ensures
            r.faces@ == faces@,
    {
        Shell { faces }
    }

    /// Appends a face.
    pub fn push(&mut self, f: Face)
        ensures
            final(self).faces@ == old(self).faces@.push(f),
    {
        self.faces.push(f);
    }

    pub fn len(&self) -> (r: usize)
        ensures
            r == self.faces@.len(),
    {
        self.faces.len()
    }

    /// The face at position `i`.
    pub fn face(&self, i: usize) -> (r: &Face)
        requires
            i < self.faces@.len(),
        ensures
            *r == self.faces@[i as int],
    {
        &self.faces[i]
    }
}

impl Solid {
    /// The solid bounded by the given shells, unchecked.
    pub fn debug_new(boundaries: Vec<Shell>) -> (r: Solid)
        ensures
            r.boundaries@ == boundaries@,
    {
        Solid { boundaries }
    }

    /// The boundary shells.
    pub fn boundaries(&self) -> (r: &Vec<Shell>)
        ensures
            r@ == self.boundaries@,
    {
        &self.boundaries
    }
}

} // verus!
