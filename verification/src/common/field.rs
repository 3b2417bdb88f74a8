//! Fields over the elements of the domain.

use vstd::prelude::*;
use crate::common::identity_map::IdentityMap;
use crate::common::point::Point;
use crate::common::scalar::Scalar;
use crate::triangle::element::TriangleElementL1;

verus! {

/// An external field acting on an element, by its value at each vertex.
pub struct External {
    pub element: TriangleElementL1,
    pub value: IdentityMap<Point, Scalar>,
}

/// A variable field on an element, by its value at each vertex.
pub struct Internal {
    pub element: TriangleElementL1,
    pub value: IdentityMap<Point, Scalar>,
}

} // verus!
