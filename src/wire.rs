use vstd::prelude::*;

use crate::edge::Edge;
use crate::store::{Topology, Vertex};
use std::collections::HashSet;

verus! {

broadcast use vstd::std_specs::hash::group_hash_axioms;

/// An ordered sequence of oriented edges. The same edge may occur more than once.
#[derive(Clone, Debug)]
pub struct Wire {
    pub edges: Vec<Edge>,
}

/// The front vertex of each edge.
pub open spec fn fronts(edges: Seq<Edge>) -> Seq<Vertex> {
    edges.map_values(|e: Edge| e.spec_front())
}

/// The ids of a sequence of vertices.
pub open spec fn ids(vs: Seq<Vertex>) -> Seq<usize> {
    vs.map_values(|v: Vertex| v.id)
}

impl Wire {
    /// The wire ends where it starts; an empty wire counts as closed.
    pub open spec fn spec_is_closed(&self) -> bool {
        self.edges@.len() == 0 || self.edges@.last().spec_back() == self.edges@[0].spec_front()
    }

    /// The vertices the wire passes through: the front of each edge, and the
    /// back of the last one where the wire is open.
    pub open spec fn vertex_seq(&self) -> Seq<Vertex> {
        if self.spec_is_closed() {
            fronts(self.edges@)
        } else {
            fronts(self.edges@).push(self.edges@.last().spec_back())
        }
    }

    /// No vertex is passed twice (the closing vertex of a closed wire counts once).
    pub open spec fn spec_is_simple(&self) -> bool {
        self.vertex_seq().no_duplicates()
    }

    /// The wire run the other way: the edges in reverse order, each inverted.
    pub open spec fn spec_inverse(&self) -> Seq<Edge> {
        Seq::new(self.edges@.len(), |i: int| self.edges@[self.edges@.len() - 1 - i].spec_inverse())
    }

    /// An empty wire.
    pub fn new() -> (r: Wire)
        ensures
            r.edges@.len() == 0,
    {
        Wire { edges: Vec::new() }
    }

    /// The wire of the given edges, in order.
    pub fn from_edges(edges: Vec<Edge>) -> (r: Wire)
        ensures
            r.edges@ == edges@,
    {
        Wire { edges }
    }

    /// Appends an edge at the end.
    pub fn push_back(&mut self, e: Edge)
        ensures
            final(self).edges@ == old(self).edges@.push(e),
    {
        self.edges.push(e);
    }

    pub fn len(&self) -> (r: usize)
        ensures
            r == self.edges@.len(),
    {
        self.edges.len()
    }

    pub fn is_empty(&self) -> (r: bool)
        ensures
            r == (self.edges@.len() == 0),
    {
        self.edges.len() == 0
    }

    /// The edge at position `i`.
    pub fn edge(&self, i: usize) -> (r: Edge)
        requires
            i < self.edges@.len(),
        ensures
            r == self.edges@[i as int],
    {
        self.edges[i]
    }

    /// The front vertex of the first edge.
    pub fn front_vertex(&self) -> (r: Option<Vertex>)
        ensures
            self.edges@.len() == 0 ==> r.is_none(),
            self.edges@.len() > 0 ==> r == Some(self.edges@[0].spec_front()),
    {
        if self.edges.len() == 0 {
            None
        } else {
            Some(self.edges[0].front())
        }
    }

    /// The back vertex of the last edge.
    pub fn back_vertex(&self) -> (r: Option<Vertex>)
        ensures
            self.edges@.len() == 0 ==> r.is_none(),
            self.edges@.len() > 0 ==> r == Some(self.edges@.last().spec_back()),
    {
        if self.edges.len() == 0 {
            None
        } else {
            Some(self.edges[self.edges.len() - 1].back())
        }
    }

    /// Whether the wire ends where it starts.
    pub fn is_closed(&self) -> (r: bool)
        ensures
            r == self.spec_is_closed(),
    {
        if self.edges.len() == 0 {
            true
        } else {
            self.edges[self.edges.len() - 1].back() == self.edges[0].front()
        }
    }

    /// The vertices the wire passes through, in order.
    pub fn vertices(&self) -> (r: Vec<Vertex>)
        ensures
            r@ == self.vertex_seq(),
    {
        let mut r: Vec<Vertex> = Vec::new();
        let mut i: usize = 0;
        while i < self.edges.len()
            invariant
                i <= self.edges@.len(),
                r@ == fronts(self.edges@.subrange(0, i as int)),
            decreases self.edges@.len() - i,
        {
            r.push(self.edges[i].front());
            i = i + 1;
            proof {
                assert(fronts(self.edges@.subrange(0, i as int)) =~= fronts(
                    self.edges@.subrange(0, i - 1),
                ).push(self.edges@[i - 1].spec_front()));
            }
        }
        proof {
            assert(self.edges@.subrange(0, i as int) =~= self.edges@);
        }
        if !self.is_closed() {
            r.push(self.edges[self.edges.len() - 1].back());
        }
        r
    }

    /// Whether no vertex is passed twice.
    pub fn is_simple(&self) -> (r: bool)
        ensures
            r == self.spec_is_simple(),
    {
        let vs = self.vertices();
        let mut seen: HashSet<usize> = HashSet::new();
        let mut i: usize = 0;
        while i < vs.len()
            invariant
                i <= vs@.len(),
                vs@ == self.vertex_seq(),
                seen@ == ids(vs@.subrange(0, i as int)).to_set(),
                vs@.subrange(0, i as int).no_duplicates(),
            decreases vs@.len() - i,
        {
            let ghost prefix = vs@.subrange(0, i as int);
            proof {
                assert(ids(vs@.subrange(0, i + 1)) =~= ids(prefix).push(vs@[i as int].id));
                assert(vs@.subrange(0, i + 1) =~= prefix.push(vs@[i as int]));
                assert(ids(prefix).push(vs@[i as int].id).to_set() =~= ids(prefix).to_set().insert(
                    vs@[i as int].id,
                )) by {
                    ids(prefix).lemma_push_to_set_commute(vs@[i as int].id);
                }
            }
            let fresh = seen.insert(vs[i].id);
            if !fresh {
                proof {
                    let k = choose|k: int| 0 <= k < ids(prefix).len() && ids(prefix)[k] == vs@[i as int].id;
                    assert(vs@[k] == vs@[i as int]);
                    assert(!vs@.no_duplicates()) by {
                        assert(vs@[k] == vs@[i as int] && k != i);
                    }
                }
                return false;
            }
            proof {
                let next = vs@.subrange(0, i + 1);
                assert forall|a: int, b: int|
                    0 <= a < next.len() && 0 <= b < next.len() && a != b implies #[trigger] next[a]
                        != #[trigger] next[b] by {
                    if a == i || b == i {
                        let k = if a == i { b } else { a };
                        if vs@[k] == vs@[i as int] {
                            assert(ids(prefix)[k] == vs@[i as int].id);
                            assert(ids(prefix).to_set().contains(vs@[i as int].id));
                        }
                    } else {
                        assert(prefix[a] != prefix[b]);
                    }
                }
            }
            i = i + 1;
        }
        proof {
            assert(vs@.subrange(0, i as int) =~= vs@);
        }
        true
    }

    /// The wire run the other way.
    pub fn inverse(&self) -> (r: Wire)
        ensures
            r.edges@ == self.spec_inverse(),
    {
        let n = self.edges.len();
        let mut edges: Vec<Edge> = Vec::new();
        let mut i: usize = 0;
        while i < n
            invariant
                n == self.edges@.len(),
                i <= n,
                edges@ == self.spec_inverse().subrange(0, i as int),
            decreases n - i,
        {
            edges.push(self.edges[n - 1 - i].inverse());
            i = i + 1;
            proof {
                assert(edges@ =~= self.spec_inverse().subrange(0, i as int));
            }
        }
        proof {
            assert(self.spec_inverse().subrange(0, i as int) =~= self.spec_inverse());
        }
        Wire { edges }
    }

    /// Runs the wire the other way.
    pub fn invert(&mut self)
        ensures
            final(self).edges@ == old(self).spec_inverse(),
    {
        *self = self.inverse();
    }
}

impl<P, C, S> Topology<P, C, S> {
    /// Every edge of `w` is a valid edge of this topology.
    pub open spec fn valid_wire(&self, w: &Wire) -> bool {
        forall|i: int| 0 <= i < w.edges@.len() ==> self.valid_edge(#[trigger] w.edges@[i])
    }
}

} // verus!
