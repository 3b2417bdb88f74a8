//! Which entries of the system the assembly writes to.
//!
//! A block is added to the rows of one triangle and the columns of one
//! triangle. The system matrix is therefore written to only where the row
//! and the column belong to the same triangle or to two neighbours, and the
//! right-hand side only in the rows of triangles that carry a constraint.
//! Every other entry stays zero.

use vstd::prelude::*;
use crate::common::edge::Edge;
use crate::common::scalar::Scalar;
use crate::triangle::system_builder::assembler_utils::{
    spec_cross_map,
    spec_linear_map,
    spec_square_map,
};
use crate::triangle::system_builder::builder::system_blocks;
use crate::triangle::system_builder::contribution::{ContributionView, Target};
use crate::triangle::system_builder::domain::DomainView;
use crate::triangle::system_builder::external::boundary_constraint::BoundaryConstraintView;
use crate::triangle::system_builder::external::dirichlet::{
    constraint_blocks,
    dirichlet_blocks,
    dirichlet_blocks_up_to,
};
use crate::triangle::system_builder::external::neumann::{constraint_block, neumann_blocks};
use crate::triangle::system_builder::internal::interface::{
    lemma_interior_edge_placement,
    InteriorPass,
};
use crate::triangle::system_builder::internal::mass::{mass_block, mass_blocks};

verus! {

/// The block is added to the entry at `row` and `column` of `target`.
pub open spec fn touches(block: ContributionView, target: Target, row: usize, column: usize) -> bool {
    block.target == target && exists|n: int|
        0 <= n < block.index_map.len() && (#[trigger] block.index_map[n]).1 == (row, column)
}

/// The triangle at place `right` lies across an interior edge of the
/// triangle at place `left`.
pub open spec fn neighbours(domain: DomainView, left: int, right: int) -> bool {
    exists|edge: Edge| #[trigger]
        domain.is_interior(edge) && domain.adjacency[edge] == left && domain.adjacency[edge.opposed()]
            == right
}

/// One of `constraints` is on the triangle at place `element`.
pub open spec fn constrained(constraints: Seq<BoundaryConstraintView>, element: int) -> bool {
    exists|i: int| 0 <= i < constraints.len() && (#[trigger] constraints[i]).element == element
}

/// The block writes only where the assembly may write: in the system matrix
/// to the rows and columns of one triangle or of a triangle and a neighbour
/// of it, in the right-hand side to the rows of a triangle with a constraint.
pub open spec fn placed(block: ContributionView, domain: DomainView) -> bool {
    forall|row: usize, column: usize|
        #![trigger touches(block, Target::SystemMatrix, row, column)]
        #![trigger touches(block, Target::ExternMatrix, row, column)]
        {
            &&& touches(block, Target::SystemMatrix, row, column) ==> {
                &&& row < domain.system_size()
                &&& column < domain.system_size()
                &&& (row / 3 == column / 3 || neighbours(domain, row as int / 3, column as int / 3))
            }
            &&& touches(block, Target::ExternMatrix, row, column) ==> {
                &&& row < domain.system_size()
                &&& column == 0
                &&& (constrained(domain.dirichlet_constraints, row as int / 3) || constrained(
                    domain.neumann_constraints,
                    row as int / 3,
                ))
            }
        }
}

/// Every block of `blocks` is placed.
pub open spec fn all_placed(blocks: Seq<ContributionView>, domain: DomainView) -> bool {
    forall|i: int| 0 <= i < blocks.len() ==> placed(#[trigger] blocks[i], domain)
}

/// The assembly writes to the system matrix only where the row and the
/// column belong to one triangle or to two neighbours, and to the right-hand
/// side only in the rows of a triangle with a constraint.
pub proof fn lemma_sparsity(sigma: Scalar, domain: DomainView)
    requires
        domain.wf(),
    ensures
        all_placed(system_blocks(sigma, domain), domain),
{
    let count = domain.elements.len();
    let mass = mass_blocks(domain);
    let natural = InteriorPass::NaturalFlux.blocks(domain);
    let artificial = InteriorPass::ArtificialFlux.blocks(domain);
    let jump = InteriorPass::JumpPenalty(sigma).blocks(domain);
    let dirichlet = dirichlet_blocks(sigma, domain);
    let neumann = neumann_blocks(domain);
    lemma_mass_placed(domain);
    lemma_interior_placed(InteriorPass::NaturalFlux, domain, count);
    lemma_interior_placed(InteriorPass::ArtificialFlux, domain, count);
    lemma_interior_placed(InteriorPass::JumpPenalty(sigma), domain, count);
    lemma_dirichlet_placed(sigma, domain, domain.dirichlet_constraints.len());
    lemma_neumann_placed(domain);
    lemma_all_placed_concat(mass, natural, domain);
    lemma_all_placed_concat(mass + natural, artificial, domain);
    lemma_all_placed_concat(mass + natural + artificial, jump, domain);
    lemma_all_placed_concat(mass + natural + artificial + jump, dirichlet, domain);
    lemma_all_placed_concat(mass + natural + artificial + jump + dirichlet, neumann, domain);
}

/// An entry of the system matrix whose row and column belong to two
/// triangles that are not neighbours is written to by no block.
pub proof fn lemma_untouched(sigma: Scalar, domain: DomainView, i: int, row: usize, column: usize)
    requires
        domain.wf(),
        0 <= i < system_blocks(sigma, domain).len(),
        row / 3 != column / 3,
        !neighbours(domain, row as int / 3, column as int / 3),
    ensures
        !touches(system_blocks(sigma, domain)[i], Target::SystemMatrix, row, column),
{
    lemma_sparsity(sigma, domain);
    assert(placed(system_blocks(sigma, domain)[i], domain));
}

proof fn lemma_all_placed_concat(
    first: Seq<ContributionView>,
    second: Seq<ContributionView>,
    domain: DomainView,
)
    requires
        all_placed(first, domain),
        all_placed(second, domain),
    ensures
        all_placed(first + second, domain),
{
    assert forall|i: int| 0 <= i < (first + second).len() implies placed(
        #[trigger] (first + second)[i],
        domain,
    ) by {
        if i < first.len() {
            assert((first + second)[i] == first[i]);
        } else {
            assert((first + second)[i] == second[i - first.len()]);
        }
    }
}

/// A block with the square index map of the triangle at place `element`
/// writes to the rows and columns of that triangle.
proof fn lemma_square_placed(block: ContributionView, domain: DomainView, element: int)
    requires
        domain.wf(),
        0 <= element < domain.elements.len(),
        block.target == Target::SystemMatrix,
        block.index_map == spec_square_map(
            (3 * element) as usize,
            (3 * element + 1) as usize,
            (3 * element + 2) as usize,
        ),
    ensures
        placed(block, domain),
{
    assert forall|row: usize, column: usize|
        touches(block, Target::SystemMatrix, row, column) implies row < domain.system_size()
        && column < domain.system_size() && row / 3 == column / 3 by {
        let n = choose|n: int|
            0 <= n < block.index_map.len() && (#[trigger] block.index_map[n]).1 == (row, column);
        assert(row / 3 == element && column / 3 == element);
    }
}

/// A block with the cross index map of two neighbours writes to the rows of
/// the one and the columns of the other.
proof fn lemma_cross_placed(block: ContributionView, domain: DomainView, left: int, right: int)
    requires
        domain.wf(),
        0 <= left < domain.elements.len(),
        0 <= right < domain.elements.len(),
        neighbours(domain, left, right),
        block.target == Target::SystemMatrix,
        block.index_map == spec_cross_map(
            (3 * left) as usize,
            (3 * left + 1) as usize,
            (3 * left + 2) as usize,
            (3 * right) as usize,
            (3 * right + 1) as usize,
            (3 * right + 2) as usize,
        ),
    ensures
        placed(block, domain),
{
    assert forall|row: usize, column: usize|
        touches(block, Target::SystemMatrix, row, column) implies row < domain.system_size()
        && column < domain.system_size() && neighbours(
        domain,
        row as int / 3,
        column as int / 3,
    ) by {
        let n = choose|n: int|
            0 <= n < block.index_map.len() && (#[trigger] block.index_map[n]).1 == (row, column);
        assert(row / 3 == left && column / 3 == right);
    }
}

/// A block with the linear index map of a triangle with a constraint writes
/// to the rows of that triangle in the right-hand side.
proof fn lemma_linear_placed(block: ContributionView, domain: DomainView, element: int)
    requires
        domain.wf(),
        0 <= element < domain.elements.len(),
        constrained(domain.dirichlet_constraints, element) || constrained(
            domain.neumann_constraints,
            element,
        ),
        block.target == Target::ExternMatrix,
        block.index_map == spec_linear_map(
            (3 * element) as usize,
            (3 * element + 1) as usize,
            (3 * element + 2) as usize,
        ),
    ensures
        placed(block, domain),
{
    assert forall|row: usize, column: usize|
        touches(block, Target::ExternMatrix, row, column) implies row < domain.system_size()
        && column == 0 && row / 3 == element by {
        let n = choose|n: int|
            0 <= n < block.index_map.len() && (#[trigger] block.index_map[n]).1 == (row, column);
        assert(row / 3 == element);
    }
}

proof fn lemma_mass_placed(domain: DomainView)
    requires
        domain.wf(),
    ensures
        all_placed(mass_blocks(domain), domain),
{
    assert forall|i: int| 0 <= i < mass_blocks(domain).len() implies placed(
        #[trigger] mass_blocks(domain)[i],
        domain,
    ) by {
        lemma_square_placed(mass_block(domain, i), domain, i);
    }
}

proof fn lemma_interior_placed(pass: InteriorPass, domain: DomainView, count: nat)
    requires
        domain.wf(),
        count <= domain.elements.len(),
    ensures
        all_placed(pass.blocks_up_to(domain, count), domain),
    decreases count,
{
    if count > 0 {
        lemma_interior_placed(pass, domain, (count - 1) as nat);
        lemma_edge_placed(pass, domain, count - 1, 0);
        lemma_edge_placed(pass, domain, count - 1, 1);
        lemma_edge_placed(pass, domain, count - 1, 2);
        let e0 = pass.edge_blocks(domain, count - 1, 0);
        let e1 = pass.edge_blocks(domain, count - 1, 1);
        let e2 = pass.edge_blocks(domain, count - 1, 2);
        lemma_all_placed_concat(e0, e1, domain);
        lemma_all_placed_concat(e0 + e1, e2, domain);
        lemma_all_placed_concat(
            pass.blocks_up_to(domain, (count - 1) as nat),
            pass.element_blocks(domain, count - 1),
            domain,
        );
    }
}

proof fn lemma_edge_placed(pass: InteriorPass, domain: DomainView, element: int, k: int)
    requires
        domain.wf(),
        0 <= element < domain.elements.len(),
        0 <= k < 3,
    ensures
        all_placed(pass.edge_blocks(domain, element, k), domain),
{
    lemma_interior_edge_placement(pass, domain, element, k);
    let edge = domain.elements[element].inner_edge(k);
    let blocks = pass.edge_blocks(domain, element, k);
    if domain.is_interior(edge) {
        let left = domain.adjacency[edge] as int;
        let right = domain.adjacency[edge.opposed()] as int;
        assert(neighbours(domain, left, right));
        lemma_square_placed(blocks[0], domain, left);
        lemma_cross_placed(blocks[1], domain, left, right);
    }
}

proof fn lemma_dirichlet_placed(sigma: Scalar, domain: DomainView, count: nat)
    requires
        domain.wf(),
        count <= domain.dirichlet_constraints.len(),
    ensures
        all_placed(dirichlet_blocks_up_to(sigma, domain, count), domain),
    decreases count,
{
    if count > 0 {
        lemma_dirichlet_placed(sigma, domain, (count - 1) as nat);
        let constraint = domain.dirichlet_constraints[count - 1];
        assert(domain.constraint_wf(constraint));
        assert(constrained(domain.dirichlet_constraints, constraint.element as int));
        let blocks = constraint_blocks(sigma, domain, constraint);
        lemma_square_placed(blocks[0], domain, constraint.element as int);
        lemma_square_placed(blocks[1], domain, constraint.element as int);
        lemma_square_placed(blocks[2], domain, constraint.element as int);
        lemma_linear_placed(blocks[3], domain, constraint.element as int);
        lemma_linear_placed(blocks[4], domain, constraint.element as int);
        lemma_all_placed_concat(
            dirichlet_blocks_up_to(sigma, domain, (count - 1) as nat),
            blocks,
            domain,
        );
    }
}

proof fn lemma_neumann_placed(domain: DomainView)
    requires
        domain.wf(),
    ensures
        all_placed(neumann_blocks(domain), domain),
{
    assert forall|i: int| 0 <= i < neumann_blocks(domain).len() implies placed(
        #[trigger] neumann_blocks(domain)[i],
        domain,
    ) by {
        let constraint = domain.neumann_constraints[i];
        assert(domain.constraint_wf(constraint));
        assert(constrained(domain.neumann_constraints, constraint.element as int));
        lemma_linear_placed(constraint_block(domain, constraint), domain, constraint.element as int);
    }
}

} // verus!
