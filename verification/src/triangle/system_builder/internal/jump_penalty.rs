//! The pass of the penalty on the jump across the interior edges.

use vstd::prelude::*;
use crate::common::scalar::Scalar;
use crate::triangle::system_builder::contribution::{views, Contribution};
use crate::triangle::system_builder::domain::Domain;
use crate::triangle::system_builder::internal::interface::InteriorPass;

verus! {

/// Appends, for each interior edge seen from each of its two triangles, the
/// diagonal block of that triangle with factor `sigma` and the block between
/// it and the triangle across the edge with factor `-sigma`.
pub fn build(plan: &mut Vec<Contribution>, sigma: Scalar, domain: &Domain) -> (r: Result<(), ()>)
    ensures
        r == Ok::<(), ()>(()),
        views(final(plan)@) == views(old(plan)@) + InteriorPass::JumpPenalty(sigma).blocks(
            domain@,
        ),
{
    InteriorPass::JumpPenalty(sigma).build(plan, domain);
    Ok(())
}

} // verus!
