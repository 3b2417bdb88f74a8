//! The pass over the Neumann constraints.

use vstd::prelude::*;
use crate::triangle::system_builder::assembler_utils::{linear_map, spec_linear_map};
use crate::triangle::system_builder::contribution::{
    all_fit,
    append,
    views,
    Contribution,
    ContributionView,
    Factor,
    Integrand,
    Target,
};
use crate::triangle::system_builder::domain::{constraint_views, Domain, DomainView};
use crate::triangle::system_builder::external::boundary_constraint::BoundaryConstraintView;
use crate::triangle::system_builder::external::dirichlet::prescribed_values;
use crate::triangle::system_builder::internal::interface::lemma_owned_edge_has_index;

verus! {

/// The block of one Neumann constraint: the surface load on its edge, added
/// to the right-hand side at the unknowns of its triangle.
pub open spec fn constraint_block(
    domain: DomainView,
    constraint: BoundaryConstraintView,
) -> ContributionView {
    let element = domain.elements[constraint.element as int];
    ContributionView {
        integrand: Integrand::Neumann {
            element,
            values: prescribed_values(domain, constraint),
            edge_index: element.spec_edge_index(constraint.boundary_edge).unwrap(),
        },
        factor: Factor::Plus,
        target: Target::ExternMatrix,
        index_map: spec_linear_map(
            (3 * constraint.element) as usize,
            (3 * constraint.element + 1) as usize,
            (3 * constraint.element + 2) as usize,
        ),
    }
}

/// The blocks of all Neumann constraints, in the order of the constraints.
pub open spec fn neumann_blocks(domain: DomainView) -> Seq<ContributionView> {
    Seq::new(
        domain.neumann_constraints.len(),
        |i: int| constraint_block(domain, domain.neumann_constraints[i]),
    )
}

/// Every block of the Neumann pass goes to places inside the right-hand side.
pub proof fn lemma_neumann_blocks_fit(domain: DomainView)
    requires
        domain.wf(),
    ensures
        all_fit(neumann_blocks(domain), domain.system_size()),
{
    assert forall|i: int| 0 <= i < neumann_blocks(domain).len() implies (#[trigger] neumann_blocks(
        domain,
    )[i]).fits(domain.system_size()) by {
        let constraint = domain.neumann_constraints[i];
        assert(domain.constraint_wf(constraint));
        lemma_owned_edge_has_index(domain, constraint.element as int, constraint.boundary_edge);
        assert(constraint_block(domain, constraint).index_map.len() == 3);
    }
}

/// Appends the block of each Neumann constraint of `domain` to `plan`.
pub fn build(plan: &mut Vec<Contribution>, domain: &Domain) -> (r: Result<(), ()>)
    ensures
        r == Ok::<(), ()>(()),
        views(final(plan)@) == views(old(plan)@) + neumann_blocks(domain@),
{
    let constraints = domain.neumann_constraints();
    let elements = domain.elements();
    let mut index: usize = 0;
    while index < constraints.len()
        invariant
            index <= constraints@.len(),
            constraint_views(constraints@) == domain@.neumann_constraints,
            elements@ == domain@.elements,
            domain@.wf(),
            views(plan@) == views(old(plan)@) + neumann_blocks(domain@).subrange(0, index as int),
        decreases constraints@.len() - index,
    {
        let d_constraint = &constraints[index];
        proof {
            assert(domain@.neumann_constraints[index as int] == d_constraint@);
            assert(domain@.constraint_wf(d_constraint@));
            lemma_owned_edge_has_index(
                domain@,
                d_constraint.element as int,
                d_constraint.boundary_edge,
            );
        }
        let element = elements[d_constraint.element];
        let inner_edge = d_constraint.boundary_edge;
        let u1 = d_constraint.value_at(&element.p1);
        let u2 = d_constraint.value_at(&element.p2);
        let u3 = d_constraint.value_at(&element.p3);
        let global_p1 = domain.index_mapping(d_constraint.element, 0);
        let global_p2 = domain.index_mapping(d_constraint.element, 1);
        let global_p3 = domain.index_mapping(d_constraint.element, 2);
        let edge_index = element.edge_index(&inner_edge).unwrap();
        append(
            plan,
            Contribution {
                integrand: Integrand::Neumann { element, values: (u1, u2, u3), edge_index },
                factor: Factor::Plus,
                target: Target::ExternMatrix,
                index_map: linear_map(global_p1, global_p2, global_p3),
            },
        );
        proof {
            let blocks = neumann_blocks(domain@);
            assert(blocks.subrange(0, index + 1) =~= blocks.subrange(0, index as int).push(
                constraint_block(domain@, d_constraint@),
            ));
            assert(views(plan@) =~= views(old(plan)@) + blocks.subrange(0, index + 1));
        }
        index = index + 1;
    }
    proof {
        assert(neumann_blocks(domain@).subrange(0, index as int) =~= neumann_blocks(domain@));
    }
    Ok(())
}

} // verus!
