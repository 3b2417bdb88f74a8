//! Directed edges.

use vstd::prelude::*;
use vstd::std_specs::cmp::PartialEqSpecImpl;
use crate::common::identity_map::{Identity, IdentityMap};
use crate::common::point::{lemma_approx_reflexive_symmetric, Point};

verus! {

/// A directed edge from `p1` to `p2`.
///
/// `==` on edges compares the two tails and the two heads with the tolerant
/// equality of points, so an edge is not equal to its opposed edge unless its
/// end points coincide.
#[derive(Clone, Copy, Debug, Hash)]
pub struct Edge {
    pub p1: Point,
    pub p2: Point,
}

impl Edge {
    /// The tails are equal and the heads are equal, up to the tolerance.
    pub open spec fn approx(self, other: Edge) -> bool {
        self.p1.approx(other.p1) && self.p2.approx(other.p2)
    }

    /// The edge with the end points exchanged.
    pub open spec fn spec_opposed(&self) -> Edge {
        Edge { p1: self.p2, p2: self.p1 }
    }

    pub fn new(p1: &Point, p2: &Point) -> (e: Edge)
        ensures
            e.p1 == *p1,
            e.p2 == *p2,
    {
        Edge { p1: *p1, p2: *p2 }
    }

    /// The edge with the end points exchanged.
    #[verifier::when_used_as_spec(spec_opposed)]
    pub fn opposed(&self) -> (e: Edge)
        ensures
            e == self.spec_opposed(),
    {
        Edge { p1: self.p2, p2: self.p1 }
    }

    /// The edges of `edges` that have met their opposed edge, each with it.
    ///
    /// The list is walked once with a set of waiting edges, which starts
    /// empty. An edge whose opposed edge waits takes it out of the set and
    /// forms a pair with it; any other edge joins the set. Edges are found in
    /// the set by identity.
    pub fn double_edges(edges: Vec<Edge>) -> (pairs: Vec<(Edge, Edge)>)
        ensures
            pairs@ == pairing(edges@).1,
    {
        let mut waiting: IdentityMap<Edge, ()> = IdentityMap::new();
        let mut pairs: Vec<(Edge, Edge)> = Vec::new();
        let mut i: usize = 0;
        while i < edges.len()
            invariant
                i <= edges@.len(),
                waiting@.dom() == pairing(edges@.subrange(0, i as int)).0,
                pairs@ == pairing(edges@.subrange(0, i as int)).1,
            decreases edges@.len() - i,
        {
            let edge = edges[i];
            let opposed = edge.opposed();
            proof {
                let next = edges@.subrange(0, i + 1);
                assert(next.drop_last() == edges@.subrange(0, i as int));
                assert(next.last() == edge);
            }
            if waiting.contains_key(&opposed) {
                waiting.remove(&opposed);
                pairs.push((edge, opposed));
            } else {
                waiting.insert(edge, ());
            }
            i = i + 1;
        }
        proof {
            assert(edges@.subrange(0, i as int) == edges@);
        }
        pairs
    }

    /// Whether the two edges have the same end points, bit for bit.
    pub fn identical(&self, other: &Edge) -> (r: bool)
        ensures
            r == (*self == *other),
    {
        self.p1.identical(&other.p1) && self.p2.identical(&other.p2)
    }
}

impl Identity for Edge {
    fn identical(&self, other: &Edge) -> (r: bool) {
        Edge::identical(self, other)
    }
}

impl PartialEq for Edge {
    fn eq(&self, other: &Self) -> (r: bool) {
        self.p1 == other.p1 && self.p2 == other.p2
    }
}

impl PartialEqSpecImpl for Edge {
    open spec fn obeys_eq_spec() -> bool {
        true
    }

    open spec fn eq_spec(&self, other: &Self) -> bool {
        self.approx(*other)
    }
}

impl Eq for Edge {

}

/// The state of the walk of [`Edge::double_edges`] after `edges`: the set of
/// edges that wait for their opposed edge, and the pairs formed so far.
pub open spec fn pairing(edges: Seq<Edge>) -> (Set<Edge>, Seq<(Edge, Edge)>)
    decreases edges.len(),
{
    if edges.len() == 0 {
        (Set::empty(), Seq::empty())
    } else {
        let before = pairing(edges.drop_last());
        let edge = edges.last();
        if before.0.contains(edge.opposed()) {
            (before.0.remove(edge.opposed()), before.1.push((edge, edge.opposed())))
        } else {
            (before.0.insert(edge), before.1)
        }
    }
}

/// Taking the opposed edge twice gives the edge back.
pub proof fn lemma_opposed_involution(e: Edge)
    ensures
        e.opposed().opposed() == e,
{
}

/// Every edge is equal to itself, and equality does not depend on the side an
/// edge stands on.
pub proof fn lemma_edge_approx_reflexive_symmetric(a: Edge, b: Edge)
    ensures
        a.approx(a),
        a.approx(b) == b.approx(a),
{
    lemma_approx_reflexive_symmetric(a.p1, b.p1);
    lemma_approx_reflexive_symmetric(a.p2, b.p2);
}

} // verus!
