//! The pass over the Dirichlet constraints.

use vstd::prelude::*;
use crate::common::scalar::Scalar;
use crate::triangle::system_builder::assembler_utils::{
    linear_map,
    spec_linear_map,
    spec_square_map,
    square_map,
};
use crate::triangle::system_builder::contribution::{
    all_fit,
    append,
    lemma_all_fit_concat,
    views,
    Contribution,
    ContributionView,
    Factor,
    Integrand,
    Target,
};
use crate::triangle::system_builder::domain::{constraint_views, Domain, DomainView};
use crate::triangle::system_builder::external::boundary_constraint::BoundaryConstraintView;
use crate::triangle::system_builder::internal::interface::lemma_owned_edge_has_index;

verus! {

/// The values that `constraint` prescribes at the three vertices of its
/// triangle, zero at a vertex that it says nothing of.
pub open spec fn prescribed_values(domain: DomainView, constraint: BoundaryConstraintView) -> (
    Scalar,
    Scalar,
    Scalar,
) {
    let element = domain.elements[constraint.element as int];
    (
        constraint.value_at(element.p1),
        constraint.value_at(element.p2),
        constraint.value_at(element.p3),
    )
}

/// The blocks of one Dirichlet constraint, all on the unknowns of its
/// triangle and on its edge: into the system matrix the natural flux, the
/// negated artificial flux and `sigma` times the bilinear penalty; into the
/// right-hand side the linear natural term and `sigma` times the linear
/// penalty.
pub open spec fn constraint_blocks(
    sigma: Scalar,
    domain: DomainView,
    constraint: BoundaryConstraintView,
) -> Seq<ContributionView> {
    let element = domain.elements[constraint.element as int];
    let edge_index = element.spec_edge_index(constraint.boundary_edge).unwrap();
    let values = prescribed_values(domain, constraint);
    let square = spec_square_map(
        (3 * constraint.element) as usize,
        (3 * constraint.element + 1) as usize,
        (3 * constraint.element + 2) as usize,
    );
    let linear = spec_linear_map(
        (3 * constraint.element) as usize,
        (3 * constraint.element + 1) as usize,
        (3 * constraint.element + 2) as usize,
    );
    seq![
        ContributionView {
            integrand: Integrand::FluxNatural { element, neighbour: element, edge_index },
            factor: Factor::Plus,
            target: Target::SystemMatrix,
            index_map: square,
        },
        ContributionView {
            integrand: Integrand::FluxArtificial { element, neighbour: element, edge_index },
            factor: Factor::Minus,
            target: Target::SystemMatrix,
            index_map: square,
        },
        ContributionView {
            integrand: Integrand::DirichletBilinearPenalty { element, edge_index },
            factor: Factor::Sigma(sigma),
            target: Target::SystemMatrix,
            index_map: square,
        },
        ContributionView {
            integrand: Integrand::DirichletLinearNatural { element, values, edge_index },
            factor: Factor::Plus,
            target: Target::ExternMatrix,
            index_map: linear,
        },
        ContributionView {
            integrand: Integrand::DirichletLinearPenalty { element, values, edge_index },
            factor: Factor::Sigma(sigma),
            target: Target::ExternMatrix,
            index_map: linear,
        },
    ]
}

/// The blocks of the first `count` Dirichlet constraints, in their order.
pub open spec fn dirichlet_blocks_up_to(sigma: Scalar, domain: DomainView, count: nat) -> Seq<
    ContributionView,
>
    decreases count,
{
    if count == 0 {
        Seq::empty()
    } else {
        dirichlet_blocks_up_to(sigma, domain, (count - 1) as nat) + constraint_blocks(
            sigma,
            domain,
            domain.dirichlet_constraints[count - 1],
        )
    }
}

/// The blocks of all Dirichlet constraints.
pub open spec fn dirichlet_blocks(sigma: Scalar, domain: DomainView) -> Seq<ContributionView> {
    dirichlet_blocks_up_to(sigma, domain, domain.dirichlet_constraints.len())
}

/// Every block of the Dirichlet pass goes to places inside its target.
pub proof fn lemma_dirichlet_blocks_fit(sigma: Scalar, domain: DomainView, count: nat)
    requires
        domain.wf(),
        count <= domain.dirichlet_constraints.len(),
    ensures
        all_fit(dirichlet_blocks_up_to(sigma, domain, count), domain.system_size()),
    decreases count,
{
    let size = domain.system_size();
    if count > 0 {
        lemma_dirichlet_blocks_fit(sigma, domain, (count - 1) as nat);
        let constraint = domain.dirichlet_constraints[count - 1];
        assert(domain.constraint_wf(constraint));
        lemma_owned_edge_has_index(domain, constraint.element as int, constraint.boundary_edge);
        let blocks = constraint_blocks(sigma, domain, constraint);
        assert forall|i: int| 0 <= i < blocks.len() implies (#[trigger] blocks[i]).fits(size) by {
            assert(blocks[i].index_map.len() == 9 || blocks[i].index_map.len() == 3);
        }
        lemma_all_fit_concat(
            dirichlet_blocks_up_to(sigma, domain, (count - 1) as nat),
            blocks,
            size,
        );
    }
}

/// Appends the five blocks of each Dirichlet constraint of `domain` to
/// `plan`, in the order of the constraints.
pub fn build(plan: &mut Vec<Contribution>, sigma: Scalar, domain: &Domain) -> (r: Result<(), ()>)
    ensures
        r == Ok::<(), ()>(()),
        views(final(plan)@) == views(old(plan)@) + dirichlet_blocks(sigma, domain@),
{
    let constraints = domain.dirichlet_constraints();
    let elements = domain.elements();
    let mut index: usize = 0;
    assert(views(plan@) =~= views(old(plan)@) + dirichlet_blocks_up_to(sigma, domain@, 0));
    while index < constraints.len()
        invariant
            index <= constraints@.len(),
            constraint_views(constraints@) == domain@.dirichlet_constraints,
            elements@ == domain@.elements,
            domain@.wf(),
            views(plan@) == views(old(plan)@) + dirichlet_blocks_up_to(
                sigma,
                domain@,
                index as nat,
            ),
        decreases constraints@.len() - index,
    {
        let d_constraint = &constraints[index];
        proof {
            assert(domain@.dirichlet_constraints[index as int] == d_constraint@);
            assert(domain@.constraint_wf(d_constraint@));
            lemma_owned_edge_has_index(
                domain@,
                d_constraint.element as int,
                d_constraint.boundary_edge,
            );
        }
        let element = elements[d_constraint.element];
        let inner_edge = d_constraint.boundary_edge;
        let u1 = d_constraint.value_at(&element.p1);
        let u2 = d_constraint.value_at(&element.p2);
        let u3 = d_constraint.value_at(&element.p3);
        let global_p1 = domain.index_mapping(d_constraint.element, 0);
        let global_p2 = domain.index_mapping(d_constraint.element, 1);
        let global_p3 = domain.index_mapping(d_constraint.element, 2);
        let edge_index = element.edge_index(&inner_edge).unwrap();
        let ghost before = views(plan@);

        append(
            plan,
            Contribution {
                integrand: Integrand::FluxNatural { element, neighbour: element, edge_index },
                factor: Factor::Plus,
                target: Target::SystemMatrix,
                index_map: square_map(global_p1, global_p2, global_p3),
            },
        );
        append(
            plan,
            Contribution {
                integrand: Integrand::FluxArtificial { element, neighbour: element, edge_index },
                factor: Factor::Minus,
                target: Target::SystemMatrix,
                index_map: square_map(global_p1, global_p2, global_p3),
            },
        );
        append(
            plan,
            Contribution {
                integrand: Integrand::DirichletBilinearPenalty { element, edge_index },
                factor: Factor::Sigma(sigma),
                target: Target::SystemMatrix,
                index_map: square_map(global_p1, global_p2, global_p3),
            },
        );
        append(
            plan,
            Contribution {
                integrand: Integrand::DirichletLinearNatural {
                    element,
                    values: (u1, u2, u3),
                    edge_index,
                },
                factor: Factor::Plus,
                target: Target::ExternMatrix,
                index_map: linear_map(global_p1, global_p2, global_p3),
            },
        );
        append(
            plan,
            Contribution {
                integrand: Integrand::DirichletLinearPenalty {
                    element,
                    values: (u1, u2, u3),
                    edge_index,
                },
                factor: Factor::Sigma(sigma),
                target: Target::ExternMatrix,
                index_map: linear_map(global_p1, global_p2, global_p3),
            },
        );
        proof {
            assert(views(plan@) =~= before + constraint_blocks(sigma, domain@, d_constraint@));
            assert(views(plan@) =~= views(old(plan)@) + dirichlet_blocks_up_to(
                sigma,
                domain@,
                (index + 1) as nat,
            ));
        }
        index = index + 1;
    }
    Ok(())
}

} // verus!
