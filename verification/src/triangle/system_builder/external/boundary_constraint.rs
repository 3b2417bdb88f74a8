//! Values prescribed on an edge of the boundary.

use vstd::prelude::*;
use crate::common::edge::Edge;
use crate::common::identity_map::IdentityMap;
use crate::common::point::Point;
use crate::common::scalar::Scalar;

verus! {

/// The mathematical content of a [`BoundaryConstraint`].
pub struct BoundaryConstraintView {
    pub element: usize,
    pub boundary_edge: Edge,
    pub values: Map<Point, Scalar>,
}

impl BoundaryConstraintView {
    /// The value prescribed at `point`: zero where none is.
    pub open spec fn value_at(self, point: Point) -> Scalar {
        if self.values.contains_key(point) {
            self.values[point]
        } else {
            Scalar::zero()
        }
    }
}

/// Values prescribed at the two end points of an edge of the boundary.
pub struct BoundaryConstraint {
    /// The place of the triangle that owns the edge among the elements of the
    /// triangulation.
    pub element: usize,
    /// The edge, directed as it is in its triangle.
    pub boundary_edge: Edge,
    /// The prescribed value of each end point of the edge.
    pub values: IdentityMap<Point, Scalar>,
}

impl View for BoundaryConstraint {
    type V = BoundaryConstraintView;

    open spec fn view(&self) -> BoundaryConstraintView {
        BoundaryConstraintView {
            element: self.element,
            boundary_edge: self.boundary_edge,
            values: self.values@,
        }
    }
}

impl BoundaryConstraint {
    /// The constraint that gives the tail of `edge` the value `tail` and its
    /// head the value `head`. Where the two end points are the same point, it
    /// keeps `head`.
    pub fn new(element: usize, edge: &Edge, tail: Scalar, head: Scalar) -> (constraint: Self)
        ensures
            constraint@ == (BoundaryConstraintView {
                element,
                boundary_edge: *edge,
                values: map![edge.p1 => tail].insert(edge.p2, head),
            }),
    {
        let mut values: IdentityMap<Point, Scalar> = IdentityMap::new();
        values.insert(edge.p1, tail);
        values.insert(edge.p2, head);
        BoundaryConstraint { element, boundary_edge: *edge, values }
    }

    /// The value prescribed at `point`: zero where none is.
    pub fn value_at(&self, point: &Point) -> (value: Scalar)
        ensures
            value == self@.value_at(*point),
    {
        match self.values.get(point) {
            Some(value) => *value,
            None => Scalar::zero(),
        }
    }
}

} // verus!
