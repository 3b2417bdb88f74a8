//! The blocks that the assembly adds to the system.
//!
//! A pass does not evaluate integrals. It says which local block is added
//! where: the integrand with its arguments, the factor it is multiplied by,
//! the matrix it goes to and the index map from its entries to the entries of
//! that matrix.

use vstd::prelude::*;
use crate::common::scalar::Scalar;
use crate::triangle::element::TriangleElementL1;
use crate::triangle::system_builder::assembler_utils::IndexMap;

verus! {

/// An integrand of the catalogue with its arguments.
///
/// `element` is the triangle whose basis functions are integrated and whose
/// inner edge `edge_index` is integrated over. `neighbour` is the triangle
/// whose basis the result is tested against. `values` are the prescribed
/// values at the three vertices of `element`.
#[derive(Clone, Copy, Debug)]
pub enum Integrand {
    /// The 3 x 3 stiffness block of one triangle.
    Mass { element: TriangleElementL1 },
    /// The 3 x 3 consistency term of the flux across an edge.
    FluxNatural { element: TriangleElementL1, neighbour: TriangleElementL1, edge_index: usize },
    /// The 3 x 3 adjoint consistency term of the flux across an edge.
    FluxArtificial { element: TriangleElementL1, neighbour: TriangleElementL1, edge_index: usize },
    /// The 3 x 3 penalty on the jump across an edge.
    InterfacePenalty {
        element: TriangleElementL1,
        neighbour: TriangleElementL1,
        edge_index: usize,
    },
    /// The 3 x 3 penalty on a Dirichlet edge.
    DirichletBilinearPenalty { element: TriangleElementL1, edge_index: usize },
    /// The 3 x 1 consistency term of a Dirichlet edge.
    DirichletLinearNatural {
        element: TriangleElementL1,
        values: (Scalar, Scalar, Scalar),
        edge_index: usize,
    },
    /// The 3 x 1 penalty term of a Dirichlet edge.
    DirichletLinearPenalty {
        element: TriangleElementL1,
        values: (Scalar, Scalar, Scalar),
        edge_index: usize,
    },
    /// The 3 x 1 surface load of a Neumann edge.
    Neumann { element: TriangleElementL1, values: (Scalar, Scalar, Scalar), edge_index: usize },
}

/// The factor that a local block is multiplied by before it is added.
#[derive(Clone, Copy, Debug)]
pub enum Factor {
    /// The block as it is.
    Plus,
    /// The negated block.
    Minus,
    /// The block times the penalty weight.
    Sigma(Scalar),
    /// The block times the negated penalty weight.
    MinusSigma(Scalar),
}

/// The matrix that a local block is added to.
#[derive(Clone, Copy, Debug)]
pub enum Target {
    /// The square matrix of the system.
    SystemMatrix,
    /// The column of the right-hand side.
    ExternMatrix,
}

/// One local block and where it is added.
#[derive(Debug)]
pub struct Contribution {
    pub integrand: Integrand,
    pub factor: Factor,
    pub target: Target,
    pub index_map: IndexMap,
}

/// The mathematical content of a [`Contribution`].
pub struct ContributionView {
    pub integrand: Integrand,
    pub factor: Factor,
    pub target: Target,
    pub index_map: Seq<((usize, usize), (usize, usize))>,
}

impl View for Contribution {
    type V = ContributionView;

    open spec fn view(&self) -> ContributionView {
        ContributionView {
            integrand: self.integrand,
            factor: self.factor,
            target: self.target,
            index_map: self.index_map@,
        }
    }
}

impl Integrand {
    /// The index of the edge that is integrated over, where there is one.
    pub open spec fn edge_index(self) -> Option<usize> {
        match self {
            Integrand::Mass { .. } => None,
            Integrand::FluxNatural { edge_index, .. } => Some(edge_index),
            Integrand::FluxArtificial { edge_index, .. } => Some(edge_index),
            Integrand::InterfacePenalty { edge_index, .. } => Some(edge_index),
            Integrand::DirichletBilinearPenalty { edge_index, .. } => Some(edge_index),
            Integrand::DirichletLinearNatural { edge_index, .. } => Some(edge_index),
            Integrand::DirichletLinearPenalty { edge_index, .. } => Some(edge_index),
            Integrand::Neumann { edge_index, .. } => Some(edge_index),
        }
    }

    /// The number of columns of the local block: one for the integrands that
    /// take prescribed values, three for the others.
    pub open spec fn columns(self) -> nat {
        match self {
            Integrand::DirichletLinearNatural { .. } => 1,
            Integrand::DirichletLinearPenalty { .. } => 1,
            Integrand::Neumann { .. } => 1,
            _ => 3,
        }
    }
}

impl ContributionView {
    /// The block can be evaluated and added to a system of `size` unknowns:
    /// its edge index is one of a triangle, its index map has an entry for
    /// each entry of the local block and for nothing else, and each entry
    /// goes to a place inside the target, which is `size` by `size` for the
    /// system matrix and `size` by one for the right-hand side.
    pub open spec fn fits(self, size: nat) -> bool {
        let columns = self.integrand.columns();
        &&& self.integrand.edge_index() matches Some(k) ==> k < 3
        &&& self.target == Target::SystemMatrix <==> columns == 3
        &&& self.index_map.len() == 3 * columns
        &&& forall|n: int|
            0 <= n < self.index_map.len() ==> {
                let entry = #[trigger] self.index_map[n];
                &&& entry.0.0 == n / columns as int
                &&& entry.0.1 == n % columns as int
                &&& entry.1.0 < size
                &&& if columns == 3 {
                    entry.1.1 < size
                } else {
                    entry.1.1 == 0
                }
            }
    }
}

/// Every block of `blocks` fits a system of `size` unknowns.
pub open spec fn all_fit(blocks: Seq<ContributionView>, size: nat) -> bool {
    forall|i: int| 0 <= i < blocks.len() ==> (#[trigger] blocks[i]).fits(size)
}

/// Two lists of blocks that fit, one after the other, fit.
pub proof fn lemma_all_fit_concat(
    first: Seq<ContributionView>,
    second: Seq<ContributionView>,
    size: nat,
)
    requires
        all_fit(first, size),
        all_fit(second, size),
    ensures
        all_fit(first + second, size),
{
    assert forall|i: int| 0 <= i < (first + second).len() implies (#[trigger] (first
        + second)[i]).fits(size) by {
        if i < first.len() {
            assert((first + second)[i] == first[i]);
        } else {
            assert((first + second)[i] == second[i - first.len()]);
        }
    }
}

/// The views of a list of contributions.
pub open spec fn views(plan: Seq<Contribution>) -> Seq<ContributionView> {
    plan.map_values(|c: Contribution| c@)
}

/// Appends `contribution` to `plan`.
pub fn append(plan: &mut Vec<Contribution>, contribution: Contribution)
    ensures
        views(final(plan)@) == views(old(plan)@).push(contribution@),
{
    plan.push(contribution);
    assert(views(plan@) =~= views(old(plan)@).push(contribution@));
}

} // verus!
