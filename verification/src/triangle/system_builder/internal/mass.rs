//! The stiffness pass: one diagonal block for each triangle.

use vstd::prelude::*;
use crate::triangle::system_builder::assembler_utils::{spec_square_map, square_map};
use crate::triangle::system_builder::contribution::{
    all_fit,
    append,
    views,
    Contribution,
    ContributionView,
    Factor,
    Integrand,
    Target,
};
use crate::triangle::system_builder::domain::{Domain, DomainView};

verus! {

/// The stiffness block of the triangle at place `element`, added to the
/// diagonal block of its own unknowns.
pub open spec fn mass_block(domain: DomainView, element: int) -> ContributionView {
    ContributionView {
        integrand: Integrand::Mass { element: domain.elements[element] },
        factor: Factor::Plus,
        target: Target::SystemMatrix,
        index_map: spec_square_map(
            (3 * element) as usize,
            (3 * element + 1) as usize,
            (3 * element + 2) as usize,
        ),
    }
}

/// The stiffness blocks of all triangles, in the order of the triangles.
pub open spec fn mass_blocks(domain: DomainView) -> Seq<ContributionView> {
    Seq::new(domain.elements.len(), |element: int| mass_block(domain, element))
}

/// Every stiffness block goes to places inside the system.
pub proof fn lemma_mass_blocks_fit(domain: DomainView)
    requires
        domain.wf(),
    ensures
        all_fit(mass_blocks(domain), domain.system_size()),
{
    assert forall|i: int| 0 <= i < mass_blocks(domain).len() implies (#[trigger] mass_blocks(
        domain,
    )[i]).fits(domain.system_size()) by {
        let block = mass_block(domain, i);
        assert(block.index_map.len() == 9);
    }
}

/// Appends the stiffness block of each triangle of `domain` to `plan`.
pub fn build(plan: &mut Vec<Contribution>, domain: &Domain) -> (r: Result<(), ()>)
    ensures
        r == Ok::<(), ()>(()),
        views(final(plan)@) == views(old(plan)@) + mass_blocks(domain@),
{
    let elements = domain.elements();
    let mut index: usize = 0;
    while index < elements.len()
        invariant
            index <= elements@.len(),
            elements@ == domain@.elements,
            views(plan@) == views(old(plan)@) + mass_blocks(domain@).subrange(0, index as int),
        decreases elements@.len() - index,
    {
        let element = elements[index];
        let gl_p1 = domain.index_mapping(index, 0);
        let gl_p2 = domain.index_mapping(index, 1);
        let gl_p3 = domain.index_mapping(index, 2);
        let ghost before = views(plan@);
        append(
            plan,
            Contribution {
                integrand: Integrand::Mass { element },
                factor: Factor::Plus,
                target: Target::SystemMatrix,
                index_map: square_map(gl_p1, gl_p2, gl_p3),
            },
        );
        proof {
            let blocks = mass_blocks(domain@);
            assert(blocks.subrange(0, index + 1) =~= blocks.subrange(0, index as int).push(
                mass_block(domain@, index as int),
            ));
            assert(views(plan@) =~= views(old(plan)@) + blocks.subrange(0, index + 1));
        }
        index = index + 1;
    }
    proof {
        assert(mass_blocks(domain@).subrange(0, index as int) =~= mass_blocks(domain@));
    }
    Ok(())
}

} // verus!
