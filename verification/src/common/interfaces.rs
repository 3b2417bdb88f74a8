//! Interfaces between elements and towards the outside.

use vstd::prelude::*;
use crate::common::point::Point;
use crate::triangle::element::TriangleElementL1;

verus! {

/// The interface between two elements.
#[derive(Clone, Copy, Debug)]
pub struct ElementsInterface {
    pub e1: TriangleElementL1,
    pub e2: TriangleElementL1,
}

/// The interface of an element towards the outside, across one of its edges.
#[derive(Clone, Copy, Debug)]
pub struct OuterInterface {
    pub e1: TriangleElementL1,
    pub edge: (Point, Point),
}

} // verus!
