//! The walk over the interior edges that the three interior passes share.

use vstd::prelude::*;
use crate::common::edge::{lemma_edge_approx_reflexive_symmetric, Edge};
use crate::common::scalar::Scalar;
use crate::triangle::element::TriangleElementL1;
use crate::triangle::system_builder::assembler_utils::{
    cross_map,
    spec_cross_map,
    spec_square_map,
    square_map,
};
use crate::triangle::system_builder::contribution::{
    all_fit,
    append,
    lemma_all_fit_concat,
    views,
    Contribution,
    ContributionView,
    Factor,
    Integrand,
    Target,
};
use crate::triangle::system_builder::domain::{Domain, DomainView};

verus! {

/// The three passes over the interior edges.
#[derive(Clone, Copy, Debug)]
pub enum InteriorPass {
    /// The consistency term of the flux.
    NaturalFlux,
    /// The adjoint consistency term of the flux.
    ArtificialFlux,
    /// The penalty on the jump, with the penalty weight.
    JumpPenalty(Scalar),
}

impl InteriorPass {
    /// The integrand of the pass on edge `edge_index` of `element`, tested
    /// against the basis of `neighbour`.
    pub open spec fn integrand(
        self,
        element: TriangleElementL1,
        neighbour: TriangleElementL1,
        edge_index: usize,
    ) -> Integrand {
        match self {
            InteriorPass::NaturalFlux => Integrand::FluxNatural { element, neighbour, edge_index },
            InteriorPass::ArtificialFlux => Integrand::FluxArtificial {
                element,
                neighbour,
                edge_index,
            },
            InteriorPass::JumpPenalty(_) => Integrand::InterfacePenalty {
                element,
                neighbour,
                edge_index,
            },
        }
    }

    /// The factor of the diagonal block: the penalty weight for the jump
    /// penalty, one for the fluxes.
    pub open spec fn diagonal_factor(self) -> Factor {
        match self {
            InteriorPass::JumpPenalty(sigma) => Factor::Sigma(sigma),
            _ => Factor::Plus,
        }
    }

    /// The factor of the off-diagonal block: the negated penalty weight for
    /// the jump penalty, one for the fluxes.
    pub open spec fn off_diagonal_factor(self) -> Factor {
        match self {
            InteriorPass::JumpPenalty(sigma) => Factor::MinusSigma(sigma),
            _ => Factor::Plus,
        }
    }

    /// The blocks of the pass for the interior edge `edge`, seen from the
    /// triangle at place `left`, with the triangle at place `right` across
    /// it: the diagonal block of the left triangle, then the block between
    /// the rows of the left and the columns of the right triangle.
    pub open spec fn interior_edge_blocks(
        self,
        domain: DomainView,
        edge: Edge,
        left: usize,
        right: usize,
    ) -> Seq<ContributionView> {
        let t_left = domain.elements[left as int];
        let t_right = domain.elements[right as int];
        let edge_index = t_left.spec_edge_index(edge).unwrap();
        seq![
            ContributionView {
                integrand: self.integrand(t_left, t_left, edge_index),
                factor: self.diagonal_factor(),
                target: Target::SystemMatrix,
                index_map: spec_square_map(
                    (3 * left) as usize,
                    (3 * left + 1) as usize,
                    (3 * left + 2) as usize,
                ),
            },
            ContributionView {
                integrand: self.integrand(t_left, t_right, edge_index),
                factor: self.off_diagonal_factor(),
                target: Target::SystemMatrix,
                index_map: spec_cross_map(
                    (3 * left) as usize,
                    (3 * left + 1) as usize,
                    (3 * left + 2) as usize,
                    (3 * right) as usize,
                    (3 * right + 1) as usize,
                    (3 * right + 2) as usize,
                ),
            },
        ]
    }

    /// The blocks of the pass for the inner edge `k` of the triangle at
    /// place `element`: those of an interior edge where the opposed edge is in
    /// the adjacency, none otherwise. The left triangle is the one that the
    /// adjacency gives for the edge, the right triangle the one it gives for
    /// the opposed edge.
    pub open spec fn edge_blocks(self, domain: DomainView, element: int, k: int) -> Seq<
        ContributionView,
    > {
        let edge = domain.elements[element].inner_edge(k);
        if domain.adjacency.contains_key(edge.opposed()) {
            self.interior_edge_blocks(
                domain,
                edge,
                domain.adjacency[edge],
                domain.adjacency[edge.opposed()],
            )
        } else {
            Seq::empty()
        }
    }

    /// The blocks of the pass for the triangle at place `element`: those of
    /// its three inner edges, in their order.
    pub open spec fn element_blocks(self, domain: DomainView, element: int) -> Seq<
        ContributionView,
    > {
        self.edge_blocks(domain, element, 0) + self.edge_blocks(domain, element, 1)
            + self.edge_blocks(domain, element, 2)
    }

    /// The blocks of the pass for the first `count` triangles, in their order.
    pub open spec fn blocks_up_to(self, domain: DomainView, count: nat) -> Seq<ContributionView>
        decreases count,
    {
        if count == 0 {
            Seq::empty()
        } else {
            self.blocks_up_to(domain, (count - 1) as nat) + self.element_blocks(
                domain,
                count - 1,
            )
        }
    }

    /// The blocks of the pass over the whole domain.
    pub open spec fn blocks(self, domain: DomainView) -> Seq<ContributionView> {
        self.blocks_up_to(domain, domain.elements.len())
    }

    fn make_integrand(
        &self,
        element: TriangleElementL1,
        neighbour: TriangleElementL1,
        edge_index: usize,
    ) -> (integrand: Integrand)
        ensures
            integrand == self.integrand(element, neighbour, edge_index),
    {
        match self {
            InteriorPass::NaturalFlux => Integrand::FluxNatural { element, neighbour, edge_index },
            InteriorPass::ArtificialFlux => Integrand::FluxArtificial {
                element,
                neighbour,
                edge_index,
            },
            InteriorPass::JumpPenalty(_) => Integrand::InterfacePenalty {
                element,
                neighbour,
                edge_index,
            },
        }
    }

    fn make_diagonal_factor(&self) -> (factor: Factor)
        ensures
            factor == self.diagonal_factor(),
    {
        match self {
            InteriorPass::JumpPenalty(sigma) => Factor::Sigma(*sigma),
            _ => Factor::Plus,
        }
    }

    fn make_off_diagonal_factor(&self) -> (factor: Factor)
        ensures
            factor == self.off_diagonal_factor(),
    {
        match self {
            InteriorPass::JumpPenalty(sigma) => Factor::MinusSigma(*sigma),
            _ => Factor::Plus,
        }
    }

    /// Appends the blocks of the pass for one inner edge of one triangle.
    fn build_edge(&self, plan: &mut Vec<Contribution>, domain: &Domain, element: usize, k: usize)
        requires
            element < domain@.elements.len(),
            k < 3,
        ensures
            views(final(plan)@) == views(old(plan)@) + self.edge_blocks(
                domain@,
                element as int,
                k as int,
            ),
    {
        let elements = domain.elements();
        let (e1, e2, e3) = elements[element].inner_edges();
        let edge = if k == 0 {
            e1
        } else if k == 1 {
            e2
        } else {
            e3
        };
        let edge_opp = edge.opposed();
        assert(edge == domain@.elements[element as int].inner_edge(k as int));
        match domain.adjacency(&edge_opp) {
            Some(right) => {
                let left = domain.adjacency(&edge).unwrap();
                let t_left = elements[left];
                let t_right = elements[right];
                proof {
                    lemma_owned_edge_has_index(domain@, left as int, edge);
                }
                let edge_index = t_left.edge_index(&edge).unwrap();
                let left_p1 = domain.index_mapping(left, 0);
                let left_p2 = domain.index_mapping(left, 1);
                let left_p3 = domain.index_mapping(left, 2);
                let right_p1 = domain.index_mapping(right, 0);
                let right_p2 = domain.index_mapping(right, 1);
                let right_p3 = domain.index_mapping(right, 2);
                append(
                    plan,
                    Contribution {
                        integrand: self.make_integrand(t_left, t_left, edge_index),
                        factor: self.make_diagonal_factor(),
                        target: Target::SystemMatrix,
                        index_map: square_map(left_p1, left_p2, left_p3),
                    },
                );
                append(
                    plan,
                    Contribution {
                        integrand: self.make_integrand(t_left, t_right, edge_index),
                        factor: self.make_off_diagonal_factor(),
                        target: Target::SystemMatrix,
                        index_map: cross_map(
                            left_p1,
                            left_p2,
                            left_p3,
                            right_p1,
                            right_p2,
                            right_p3,
                        ),
                    },
                );
                assert(views(plan@) =~= views(old(plan)@) + self.edge_blocks(
                    domain@,
                    element as int,
                    k as int,
                ));
            },
            None => {
                assert(views(plan@) =~= views(old(plan)@) + self.edge_blocks(
                    domain@,
                    element as int,
                    k as int,
                ));
            },
        }
    }

    /// Appends the blocks of the pass to `plan`: for each triangle of
    /// `domain`, in order, and each of its inner edges, in order, the two
    /// blocks of the edge where it is interior.
    pub fn build(&self, plan: &mut Vec<Contribution>, domain: &Domain)
        ensures
            views(final(plan)@) == views(old(plan)@) + self.blocks(domain@),
    {
        let count = domain.elements().len();
        let mut element: usize = 0;
        assert(views(plan@) =~= views(old(plan)@) + self.blocks_up_to(domain@, 0));
        while element < count
            invariant
                element <= count,
                count == domain@.elements.len(),
                views(plan@) == views(old(plan)@) + self.blocks_up_to(domain@, element as nat),
            decreases count - element,
        {
            let ghost before = views(plan@);
            self.build_edge(plan, domain, element, 0);
            self.build_edge(plan, domain, element, 1);
            self.build_edge(plan, domain, element, 2);
            assert(views(plan@) =~= before + self.element_blocks(domain@, element as int));
            assert(views(plan@) =~= views(old(plan)@) + self.blocks_up_to(
                domain@,
                (element + 1) as nat,
            ));
            element = element + 1;
        }
    }
}

/// The number of inner edges of the first `count` triangles that are interior.
pub open spec fn interior_edge_count(domain: DomainView, count: nat) -> nat
    decreases count,
{
    if count == 0 {
        0
    } else {
        let t = domain.elements[count - 1];
        let one = |k: int|
            if domain.adjacency.contains_key(t.inner_edge(k).opposed()) {
                1nat
            } else {
                0nat
            };
        interior_edge_count(domain, (count - 1) as nat) + one(0) + one(1) + one(2)
    }
}

/// What one inner edge of one triangle contributes to an interior pass.
///
/// The edge is interior exactly where its opposed edge is in the adjacency.
/// An edge that is not interior contributes nothing. An interior edge
/// contributes exactly two blocks, both to the system matrix and both in the
/// rows of the left triangle, the one that the adjacency gives for the edge:
/// first the diagonal block, in the columns of the left triangle, then the
/// off-diagonal block, in the columns of the right triangle, the one that the
/// adjacency gives for the opposed edge. Both integrate over the edge as the
/// left triangle numbers it.
pub proof fn lemma_interior_edge_placement(
    pass: InteriorPass,
    domain: DomainView,
    element: int,
    k: int,
)
    requires
        domain.wf(),
        0 <= element < domain.elements.len(),
        0 <= k < 3,
    ensures
        ({
            let edge = domain.elements[element].inner_edge(k);
            let blocks = pass.edge_blocks(domain, element, k);
            let left = domain.adjacency[edge];
            let right = domain.adjacency[edge.opposed()];
            let edge_index = domain.elements[left as int].spec_edge_index(edge);
            &&& domain.is_interior(edge) <==> domain.adjacency.contains_key(edge.opposed())
            &&& !domain.is_interior(edge) ==> blocks.len() == 0
            &&& domain.is_interior(edge) ==> {
                &&& blocks.len() == 2
                &&& element <= left < domain.elements.len()
                &&& right < domain.elements.len()
                &&& domain.owns(left as int, edge)
                &&& domain.owns(right as int, edge.opposed())
                &&& edge_index is Some
                &&& edge_index.unwrap() < 3
                &&& blocks[0].target == Target::SystemMatrix
                &&& blocks[1].target == Target::SystemMatrix
                &&& blocks[0].factor == pass.diagonal_factor()
                &&& blocks[1].factor == pass.off_diagonal_factor()
                &&& blocks[0].integrand == pass.integrand(
                    domain.elements[left as int],
                    domain.elements[left as int],
                    edge_index.unwrap(),
                )
                &&& blocks[1].integrand == pass.integrand(
                    domain.elements[left as int],
                    domain.elements[right as int],
                    edge_index.unwrap(),
                )
                &&& forall|n: int|
                    0 <= n < 9 ==> #[trigger] blocks[0].index_map[n] == (
                        ((n / 3) as usize, (n % 3) as usize),
                        ((3 * left + n / 3) as usize, (3 * left + n % 3) as usize),
                    )
                &&& forall|n: int|
                    0 <= n < 9 ==> #[trigger] blocks[1].index_map[n] == (
                        ((n / 3) as usize, (n % 3) as usize),
                        ((3 * left + n / 3) as usize, (3 * right + n % 3) as usize),
                    )
            }
        }),
{
    let edge = domain.elements[element].inner_edge(k);
    assert(domain.adjacency.contains_key(edge));
    if domain.adjacency.contains_key(edge.opposed()) {
        let left = domain.adjacency[edge];
        lemma_owned_edge_has_index(domain, left as int, edge);
    }
}

/// The triangle across an interior edge contributes its own two blocks for
/// it: the opposed edge is an inner edge of the right triangle, and it is
/// interior as well.
pub proof fn lemma_neighbour_contributes(
    pass: InteriorPass,
    domain: DomainView,
    element: int,
    k: int,
)
    requires
        domain.wf(),
        0 <= element < domain.elements.len(),
        0 <= k < 3,
        domain.is_interior(domain.elements[element].inner_edge(k)),
    ensures
        ({
            let edge = domain.elements[element].inner_edge(k);
            let right = domain.adjacency[edge.opposed()] as int;
            exists|k2: int|
                0 <= k2 < 3 && #[trigger] domain.elements[right].inner_edge(k2) == edge.opposed()
                    && pass.edge_blocks(domain, right, k2).len() == 2
        }),
{
    let edge = domain.elements[element].inner_edge(k);
    let right = domain.adjacency[edge.opposed()] as int;
    assert(domain.owns(right, edge.opposed()));
    let k2 = choose|k2: int|
        0 <= k2 < 3 && #[trigger] domain.elements[right].inner_edge(k2) == edge.opposed();
    assert(edge.opposed().opposed() == edge);
    assert(domain.adjacency.contains_key(edge));
}

/// An interior pass has two blocks for each inner edge that is interior.
pub proof fn lemma_block_count(pass: InteriorPass, domain: DomainView, count: nat)
    requires
        domain.wf(),
        count <= domain.elements.len(),
    ensures
        pass.blocks_up_to(domain, count).len() == 2 * interior_edge_count(domain, count),
    decreases count,
{
    if count > 0 {
        lemma_block_count(pass, domain, (count - 1) as nat);
        lemma_interior_edge_placement(pass, domain, count - 1, 0);
        lemma_interior_edge_placement(pass, domain, count - 1, 1);
        lemma_interior_edge_placement(pass, domain, count - 1, 2);
    }
}

/// Every block of an interior pass goes to places inside the system matrix.
pub proof fn lemma_interior_blocks_fit(pass: InteriorPass, domain: DomainView, count: nat)
    requires
        domain.wf(),
        count <= domain.elements.len(),
    ensures
        all_fit(pass.blocks_up_to(domain, count), domain.system_size()),
    decreases count,
{
    let size = domain.system_size();
    if count > 0 {
        lemma_interior_blocks_fit(pass, domain, (count - 1) as nat);
        lemma_edge_blocks_fit(pass, domain, count - 1, 0);
        lemma_edge_blocks_fit(pass, domain, count - 1, 1);
        lemma_edge_blocks_fit(pass, domain, count - 1, 2);
        let e0 = pass.edge_blocks(domain, count - 1, 0);
        let e1 = pass.edge_blocks(domain, count - 1, 1);
        let e2 = pass.edge_blocks(domain, count - 1, 2);
        lemma_all_fit_concat(e0, e1, size);
        lemma_all_fit_concat(e0 + e1, e2, size);
        lemma_all_fit_concat(
            pass.blocks_up_to(domain, (count - 1) as nat),
            pass.element_blocks(domain, count - 1),
            size,
        );
    }
}

/// The blocks of one inner edge go to places inside the system matrix.
proof fn lemma_edge_blocks_fit(pass: InteriorPass, domain: DomainView, element: int, k: int)
    requires
        domain.wf(),
        0 <= element < domain.elements.len(),
        0 <= k < 3,
    ensures
        all_fit(pass.edge_blocks(domain, element, k), domain.system_size()),
{
    lemma_interior_edge_placement(pass, domain, element, k);
    let blocks = pass.edge_blocks(domain, element, k);
    assert forall|i: int| 0 <= i < blocks.len() implies (#[trigger] blocks[i]).fits(
        domain.system_size(),
    ) by {
        assert(blocks[i].index_map.len() == 9);
    }
}

/// An edge that a triangle of a well-formed domain owns has an index in it.
pub proof fn lemma_owned_edge_has_index(domain: DomainView, element: int, edge: Edge)
    requires
        domain.owns(element, edge),
    ensures
        domain.elements[element].spec_edge_index(edge) is Some,
        domain.elements[element].spec_edge_index(edge).unwrap() < 3,
{
    lemma_edge_approx_reflexive_symmetric(edge, edge);
    let k = choose|k: int| 0 <= k < 3 && #[trigger] domain.elements[element].inner_edge(k) == edge;
    assert(edge.approx(domain.elements[element].inner_edge(k)));
}

} // verus!
