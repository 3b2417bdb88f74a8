//! Points of the plane.

use vstd::prelude::*;
use vstd::arithmetic::power2::pow2;
use vstd::math::abs;
use vstd::std_specs::cmp::PartialEqSpecImpl;
use crate::common::identity_map::Identity;
use crate::common::scalar::{lemma_within_tolerance_reflexive, lemma_within_tolerance_symmetric};
use crate::common::scalar::{within_tolerance, Scalar, INVERSE_TOLERANCE};

verus! {

/// A point of the plane.
///
/// `==` on points is tolerant: it holds when neither coordinate differs by
/// more than `10^-14`. It is reflexive and symmetric but not transitive. The
/// hash goes by the decomposition of the coordinates, so it agrees with
/// [`Point::identical`], not with `==`: a vertex that several triangles share
/// has to be given with the same coordinates, bit for bit, in each of them.
#[derive(Clone, Copy, Debug, Hash)]
pub struct Point {
    pub x: Scalar,
    pub y: Scalar,
}

impl Point {
    /// Neither coordinate of the two points differs by more than `10^-14`.
    pub open spec fn approx(self, other: Point) -> bool {
        within_tolerance(self.x@, other.x@) && within_tolerance(self.y@, other.y@)
    }

    pub fn new(x: Scalar, y: Scalar) -> (p: Point)
        ensures
            p.x == x,
            p.y == y,
    {
        Point { x, y }
    }

    /// Whether the two points have the same coordinates, bit for bit.
    pub fn identical(&self, other: &Point) -> (r: bool)
        ensures
            r == (*self == *other),
    {
        self.x.identical(&other.x) && self.y.identical(&other.y)
    }
}

impl Identity for Point {
    fn identical(&self, other: &Point) -> (r: bool) {
        Point::identical(self, other)
    }
}

impl PartialEq for Point {
    fn eq(&self, other: &Self) -> (r: bool) {
        self.x.close_to(&other.x) && self.y.close_to(&other.y)
    }
}

impl PartialEqSpecImpl for Point {
    open spec fn obeys_eq_spec() -> bool {
        true
    }

    open spec fn eq_spec(&self, other: &Self) -> bool {
        self.approx(*other)
    }
}

impl Eq for Point {

}

/// Two points compare equal, with `==` from either side, whenever both
/// coordinates of the one lie within `10^-14` of those of the other. The
/// differences are taken of the numerators, which are the coordinates
/// multiplied by `2^1075`.
pub proof fn lemma_tolerant_equality(a: Point, b: Point)
    requires
        abs(a.x@.numerator() - b.x@.numerator()) * INVERSE_TOLERANCE <= pow2(1075),
        abs(a.y@.numerator() - b.y@.numerator()) * INVERSE_TOLERANCE <= pow2(1075),
    ensures
        a.approx(b),
        b.approx(a),
{
    lemma_within_tolerance_symmetric(a.x@, b.x@);
    lemma_within_tolerance_symmetric(a.y@, b.y@);
}

/// Every point is equal to itself, and equality does not depend on the side
/// a point stands on.
pub proof fn lemma_approx_reflexive_symmetric(a: Point, b: Point)
    ensures
        a.approx(a),
        a.approx(b) == b.approx(a),
{
    lemma_within_tolerance_reflexive(a.x@);
    lemma_within_tolerance_reflexive(a.y@);
    lemma_within_tolerance_symmetric(a.x@, b.x@);
    lemma_within_tolerance_symmetric(a.y@, b.y@);
}

} // verus!
