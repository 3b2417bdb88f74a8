//! The linear triangular element.

use vstd::prelude::*;
use vstd::std_specs::cmp::PartialEqSpecImpl;
use crate::common::edge::{lemma_edge_approx_reflexive_symmetric, Edge};
use crate::common::point::{lemma_approx_reflexive_symmetric, Point};

verus! {

/// A triangle with one linear basis function for each of its vertices
/// `p1`, `p2`, `p3`, in this order.
///
/// `==` on triangles compares the vertices in order with the tolerant
/// equality of points.
#[derive(Clone, Copy, Debug, Hash)]
pub struct TriangleElementL1 {
    pub p1: Point,
    pub p2: Point,
    pub p3: Point,
}

impl PartialEq for TriangleElementL1 {
    fn eq(&self, other: &Self) -> (r: bool) {
        self.p1 == other.p1 && self.p2 == other.p2 && self.p3 == other.p3
    }
}

impl PartialEqSpecImpl for TriangleElementL1 {
    open spec fn obeys_eq_spec() -> bool {
        true
    }

    open spec fn eq_spec(&self, other: &Self) -> bool {
        self.approx(*other)
    }
}

impl Eq for TriangleElementL1 {

}

impl TriangleElementL1 {
    /// The vertices are equal in order, up to the tolerance.
    pub open spec fn approx(self, other: TriangleElementL1) -> bool {
        self.p1.approx(other.p1) && self.p2.approx(other.p2) && self.p3.approx(other.p3)
    }

    /// No two vertices of the triangle are the same point, bit for bit.
    pub open spec fn proper(self) -> bool {
        self.p1 != self.p2 && self.p2 != self.p3 && self.p3 != self.p1
    }

    /// The vertex at place `k` of the triangle.
    pub open spec fn vertex(self, k: int) -> Point {
        if k == 0 {
            self.p1
        } else if k == 1 {
            self.p2
        } else {
            self.p3
        }
    }

    /// The inner edge with index `k`: from vertex `k` to the next vertex
    /// around the triangle.
    pub open spec fn inner_edge(self, k: int) -> Edge {
        Edge { p1: self.vertex(k), p2: self.vertex((k + 1) % 3) }
    }

    /// The first index whose inner edge is equal to `edge`, if there is one.
    pub open spec fn spec_edge_index(self, edge: Edge) -> Option<usize> {
        if edge.approx(self.inner_edge(0)) {
            Some(0usize)
        } else if edge.approx(self.inner_edge(1)) {
            Some(1usize)
        } else if edge.approx(self.inner_edge(2)) {
            Some(2usize)
        } else {
            None
        }
    }

    /// The vertex that follows the inner edge starting at the first vertex
    /// equal to the tail of `edge`, if there is such a vertex.
    pub open spec fn spec_opposite_vertex(self, edge: Edge) -> Option<Point> {
        if self.p1.approx(edge.p1) {
            Some(self.p3)
        } else if self.p2.approx(edge.p1) {
            Some(self.p1)
        } else if self.p3.approx(edge.p1) {
            Some(self.p2)
        } else {
            None
        }
    }

    /// The vertex of the triangle that lies opposite `edge`.
    ///
    /// Only the tail of `edge` is looked at, so the result is what the name
    /// says only for an inner edge of the triangle.
    pub fn opposite_vertex(&self, edge: &Edge) -> (r: Result<Point, ()>)
        ensures
            r == match self.spec_opposite_vertex(*edge) {
                Some(p) => Ok::<Point, ()>(p),
                None => Err::<Point, ()>(()),
            },
    {
        if self.p1 == edge.p1 {
            Ok(self.p3)
        } else if self.p2 == edge.p1 {
            Ok(self.p1)
        } else if self.p3 == edge.p1 {
            Ok(self.p2)
        } else {
            Err(())
        }
    }

    pub fn new(p1: &Point, p2: &Point, p3: &Point) -> (t: TriangleElementL1)
        ensures
            t.p1 == *p1,
            t.p2 == *p2,
            t.p3 == *p3,
    {
        TriangleElementL1 { p1: *p1, p2: *p2, p3: *p3 }
    }

    /// The three inner edges `p1 -> p2`, `p2 -> p3`, `p3 -> p1`.
    pub fn inner_edges(&self) -> (edges: (Edge, Edge, Edge))
        ensures
            edges.0 == self.inner_edge(0),
            edges.1 == self.inner_edge(1),
            edges.2 == self.inner_edge(2),
    {
        let e1 = Edge::new(&self.p1, &self.p2);
        let e2 = Edge::new(&self.p2, &self.p3);
        let e3 = Edge::new(&self.p3, &self.p1);
        (e1, e2, e3)
    }

    /// The index of the inner edge that `edge` is equal to; the first one
    /// where it is equal to several. Fails where it is equal to none.
    pub fn edge_index(&self, edge: &Edge) -> (r: Result<usize, ()>)
        ensures
            r == match self.spec_edge_index(*edge) {
                Some(k) => Ok::<usize, ()>(k),
                None => Err::<usize, ()>(()),
            },
    {
        if edge.p1 == self.p1 && edge.p2 == self.p2 {
            Ok(0)
        } else if edge.p1 == self.p2 && edge.p2 == self.p3 {
            Ok(1)
        } else if edge.p1 == self.p3 && edge.p2 == self.p1 {
            Ok(2)
        } else {
            Err(())
        }
    }

    /// Whether the two triangles have the same vertices in the same order,
    /// bit for bit.
    pub fn identical(&self, other: &TriangleElementL1) -> (r: bool)
        ensures
            r == (*self == *other),
    {
        self.p1.identical(&other.p1) && self.p2.identical(&other.p2) && self.p3.identical(
            &other.p3,
        )
    }
}

/// The index found for an edge is the least index of an inner edge equal to
/// it, and none is found exactly where no inner edge is equal to it.
pub proof fn lemma_edge_index_is_least(t: TriangleElementL1, edge: Edge)
    ensures
        match t.spec_edge_index(edge) {
            Some(k) => k < 3 && edge.approx(t.inner_edge(k as int)) && forall|j: int|
                0 <= j < k ==> !edge.approx(#[trigger] t.inner_edge(j)),
            None => forall|j: int| 0 <= j < 3 ==> !edge.approx(#[trigger] t.inner_edge(j)),
        },
{
}

/// Looking up the inner edge with index `k` gives `k` back, unless an inner
/// edge with a smaller index is equal to it.
pub proof fn lemma_edge_roundtrip(t: TriangleElementL1, k: usize)
    requires
        k < 3,
        forall|j: int| 0 <= j < k ==> !t.inner_edge(k as int).approx(#[trigger] t.inner_edge(j)),
    ensures
        t.spec_edge_index(t.inner_edge(k as int)) == Some(k),
{
    lemma_edge_approx_reflexive_symmetric(t.inner_edge(k as int), t.inner_edge(k as int));
    if k >= 1 {
        assert(!t.inner_edge(k as int).approx(t.inner_edge(0)));
    }
    if k >= 2 {
        assert(!t.inner_edge(k as int).approx(t.inner_edge(1)));
    }
}

/// Where an inner edge with a smaller index is equal to the inner edge with
/// index `k`, looking the latter up gives the smaller index.
pub proof fn lemma_edge_roundtrip_fails(t: TriangleElementL1, k: usize, j: usize)
    requires
        j < k < 3,
        t.inner_edge(k as int).approx(t.inner_edge(j as int)),
    ensures
        t.spec_edge_index(t.inner_edge(k as int)) matches Some(i) && i <= j,
{
}

/// The vertex found opposite the inner edge with index `k` is the one that
/// is not an end point of the edge, unless a vertex at a smaller place is
/// equal to the tail of the edge.
pub proof fn lemma_opposite_vertex_of_inner_edge(t: TriangleElementL1, k: usize)
    requires
        k < 3,
        forall|j: int| 0 <= j < k ==> !(#[trigger] t.vertex(j)).approx(t.vertex(k as int)),
    ensures
        t.spec_opposite_vertex(t.inner_edge(k as int)) == Some(t.vertex((k + 2) % 3)),
{
    lemma_approx_reflexive_symmetric(t.vertex(k as int), t.vertex(k as int));
    if k >= 1 {
        assert(!t.vertex(0).approx(t.vertex(k as int)));
    }
    if k >= 2 {
        assert(!t.vertex(1).approx(t.vertex(k as int)));
    }
}

} // verus!
