//! The pass of the adjoint consistency term of the flux across the interior edges.

use vstd::prelude::*;
use crate::triangle::system_builder::contribution::{views, Contribution};
use crate::triangle::system_builder::domain::Domain;
use crate::triangle::system_builder::internal::interface::InteriorPass;

verus! {

/// Appends, for each interior edge seen from each of its two triangles, the
/// diagonal block of that triangle and the block between it and the triangle
/// across the edge, both with factor one.
pub fn build(plan: &mut Vec<Contribution>, domain: &Domain) -> (r: Result<(), ()>)
    ensures
        r == Ok::<(), ()>(()),
        views(final(plan)@) == views(old(plan)@) + InteriorPass::ArtificialFlux.blocks(domain@),
{
    InteriorPass::ArtificialFlux.build(plan, domain);
    Ok(())
}

} // verus!
