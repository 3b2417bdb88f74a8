//! The assembly of the whole system.

use vstd::prelude::*;
use crate::common::scalar::Scalar;
use crate::triangle::system_builder::contribution::{
    all_fit,
    lemma_all_fit_concat,
    views,
    Contribution,
    ContributionView,
};
use crate::triangle::system_builder::domain::{Domain, DomainView};
use crate::triangle::system_builder::external::dirichlet::{
    self,
    dirichlet_blocks,
    lemma_dirichlet_blocks_fit,
};
use crate::triangle::system_builder::external::neumann::{
    self,
    lemma_neumann_blocks_fit,
    neumann_blocks,
};
use crate::triangle::system_builder::internal::interface::{
    lemma_interior_blocks_fit,
    InteriorPass,
};
use crate::triangle::system_builder::internal::mass::{self, lemma_mass_blocks_fit, mass_blocks};
use crate::triangle::system_builder::internal::{flux_artificial, flux_natural, jump_penalty};

verus! {

/// The blocks of the whole assembly: those of the six passes, one pass after
/// the other.
pub open spec fn system_blocks(sigma: Scalar, domain: DomainView) -> Seq<ContributionView> {
    mass_blocks(domain) + InteriorPass::NaturalFlux.blocks(domain)
        + InteriorPass::ArtificialFlux.blocks(domain) + InteriorPass::JumpPenalty(sigma).blocks(
        domain,
    ) + dirichlet_blocks(sigma, domain) + neumann_blocks(domain)
}

/// Every block of the assembly can be evaluated and goes to places inside its
/// target: no pass writes outside the system of `3 n` unknowns.
pub proof fn lemma_system_blocks_fit(sigma: Scalar, domain: DomainView)
    requires
        domain.wf(),
    ensures
        all_fit(system_blocks(sigma, domain), domain.system_size()),
{
    let size = domain.system_size();
    let count = domain.elements.len();
    let mass = mass_blocks(domain);
    let natural = InteriorPass::NaturalFlux.blocks(domain);
    let artificial = InteriorPass::ArtificialFlux.blocks(domain);
    let jump = InteriorPass::JumpPenalty(sigma).blocks(domain);
    let dirichlet = dirichlet_blocks(sigma, domain);
    let neumann = neumann_blocks(domain);
    lemma_mass_blocks_fit(domain);
    lemma_interior_blocks_fit(InteriorPass::NaturalFlux, domain, count);
    lemma_interior_blocks_fit(InteriorPass::ArtificialFlux, domain, count);
    lemma_interior_blocks_fit(InteriorPass::JumpPenalty(sigma), domain, count);
    lemma_dirichlet_blocks_fit(sigma, domain, domain.dirichlet_constraints.len());
    lemma_neumann_blocks_fit(domain);
    lemma_all_fit_concat(mass, natural, size);
    lemma_all_fit_concat(mass + natural, artificial, size);
    lemma_all_fit_concat(mass + natural + artificial, jump, size);
    lemma_all_fit_concat(mass + natural + artificial + jump, dirichlet, size);
    lemma_all_fit_concat(mass + natural + artificial + jump + dirichlet, neumann, size);
}

/// The six passes of the assembly.
#[derive(Clone, Copy, Debug)]
pub enum Pass {
    Mass,
    NaturalFlux,
    ArtificialFlux,
    JumpPenalty,
    Dirichlet,
    Neumann,
}

/// The blocks of one pass.
pub open spec fn pass_blocks(pass: Pass, sigma: Scalar, domain: DomainView) -> Seq<
    ContributionView,
> {
    match pass {
        Pass::Mass => mass_blocks(domain),
        Pass::NaturalFlux => InteriorPass::NaturalFlux.blocks(domain),
        Pass::ArtificialFlux => InteriorPass::ArtificialFlux.blocks(domain),
        Pass::JumpPenalty => InteriorPass::JumpPenalty(sigma).blocks(domain),
        Pass::Dirichlet => dirichlet_blocks(sigma, domain),
        Pass::Neumann => neumann_blocks(domain),
    }
}

/// The blocks of the passes of `order`, run one after the other.
pub open spec fn run(order: Seq<Pass>, sigma: Scalar, domain: DomainView) -> Seq<ContributionView>
    decreases order.len(),
{
    if order.len() == 0 {
        Seq::empty()
    } else {
        run(order.drop_last(), sigma, domain) + pass_blocks(order.last(), sigma, domain)
    }
}

/// The order in which [`build`] runs the passes.
pub open spec fn build_order() -> Seq<Pass> {
    seq![
        Pass::Mass,
        Pass::NaturalFlux,
        Pass::ArtificialFlux,
        Pass::JumpPenalty,
        Pass::Dirichlet,
        Pass::Neumann,
    ]
}

/// How often `block` is added by the passes of `order`: for each pass, as
/// often as the pass adds it, times the number of times the pass is run.
pub open spec fn times_added(
    order: Seq<Pass>,
    sigma: Scalar,
    domain: DomainView,
    block: ContributionView,
) -> nat {
    let runs = order.to_multiset();
    runs.count(Pass::Mass) * pass_blocks(Pass::Mass, sigma, domain).to_multiset().count(block)
        + runs.count(Pass::NaturalFlux) * pass_blocks(
        Pass::NaturalFlux,
        sigma,
        domain,
    ).to_multiset().count(block) + runs.count(Pass::ArtificialFlux) * pass_blocks(
        Pass::ArtificialFlux,
        sigma,
        domain,
    ).to_multiset().count(block) + runs.count(Pass::JumpPenalty) * pass_blocks(
        Pass::JumpPenalty,
        sigma,
        domain,
    ).to_multiset().count(block) + runs.count(Pass::Dirichlet) * pass_blocks(
        Pass::Dirichlet,
        sigma,
        domain,
    ).to_multiset().count(block) + runs.count(Pass::Neumann) * pass_blocks(
        Pass::Neumann,
        sigma,
        domain,
    ).to_multiset().count(block)
}

/// The assembly is the six passes in the order of [`build_order`].
pub proof fn lemma_build_runs_the_passes(sigma: Scalar, domain: DomainView)
    ensures
        system_blocks(sigma, domain) == run(build_order(), sigma, domain),
{
    let order = build_order();
    let o5 = order.drop_last();
    let o4 = o5.drop_last();
    let o3 = o4.drop_last();
    let o2 = o3.drop_last();
    let o1 = o2.drop_last();
    let o0 = o1.drop_last();
    assert(o0.len() == 0);
    assert(run(o0, sigma, domain) =~= Seq::empty());
    assert(run(o1, sigma, domain) =~= mass_blocks(domain));
    assert(run(o2, sigma, domain) == run(o1, sigma, domain) + pass_blocks(
        Pass::NaturalFlux,
        sigma,
        domain,
    ));
    assert(run(o3, sigma, domain) == run(o2, sigma, domain) + pass_blocks(
        Pass::ArtificialFlux,
        sigma,
        domain,
    ));
    assert(run(o4, sigma, domain) == run(o3, sigma, domain) + pass_blocks(
        Pass::JumpPenalty,
        sigma,
        domain,
    ));
    assert(run(o5, sigma, domain) == run(o4, sigma, domain) + pass_blocks(
        Pass::Dirichlet,
        sigma,
        domain,
    ));
    assert(run(order, sigma, domain) == run(o5, sigma, domain) + pass_blocks(
        Pass::Neumann,
        sigma,
        domain,
    ));
    assert(system_blocks(sigma, domain) =~= run(order, sigma, domain));
}

/// How often a block is added by a run of passes depends only on how often
/// each pass is run.
pub proof fn lemma_times_added(
    order: Seq<Pass>,
    sigma: Scalar,
    domain: DomainView,
    block: ContributionView,
)
    ensures
        run(order, sigma, domain).to_multiset().count(block) == times_added(
            order,
            sigma,
            domain,
            block,
        ),
    decreases order.len(),
{
    broadcast use vstd::seq_lib::group_to_multiset_ensures;

    if order.len() == 0 {
        assert(run(order, sigma, domain) =~= Seq::empty());
        assert(order =~= Seq::empty());
        assert(order.to_multiset() =~= vstd::multiset::Multiset::empty());
        assert(run(order, sigma, domain).to_multiset() =~= vstd::multiset::Multiset::empty());
    } else {
        let front = order.drop_last();
        let last = order.last();
        lemma_times_added(front, sigma, domain, block);
        vstd::seq_lib::lemma_multiset_commutative(
            run(front, sigma, domain),
            pass_blocks(last, sigma, domain),
        );
        assert(front.push(last) =~= order);
        assert(order.to_multiset() =~= front.to_multiset().insert(last));
        let inc = |p: Pass|
            if p == last {
                1int
            } else {
                0int
            };
        let n = |p: Pass| front.to_multiset().count(p) as int;
        let m = |p: Pass| pass_blocks(p, sigma, domain).to_multiset().count(block) as int;
        assert forall|p: Pass| order.to_multiset().count(p) == n(p) + inc(p) by {}
        assert forall|p: Pass| #[trigger] ((n(p) + inc(p)) * m(p)) == n(p) * m(p) + inc(p) * m(p) by {
            let (a, b, c) = (n(p), inc(p), m(p));
            assert((a + b) * c == a * c + b * c) by (nonlinear_arith);
        }
        assert forall|p: Pass| #[trigger] (inc(p) * m(p)) == (if p == last {
            m(p)
        } else {
            0
        }) by {
            if p == last {
                assert(1 * m(p) == m(p));
            } else {
                assert(0 * m(p) == 0);
            }
        }
        assert(m(last) == inc(Pass::Mass) * m(Pass::Mass) + inc(Pass::NaturalFlux) * m(
            Pass::NaturalFlux,
        ) + inc(Pass::ArtificialFlux) * m(Pass::ArtificialFlux) + inc(Pass::JumpPenalty) * m(
            Pass::JumpPenalty,
        ) + inc(Pass::Dirichlet) * m(Pass::Dirichlet) + inc(Pass::Neumann) * m(Pass::Neumann));
        assert(order.to_multiset().count(Pass::Mass) * m(Pass::Mass) == (n(Pass::Mass) + inc(
            Pass::Mass,
        )) * m(Pass::Mass));
        assert(order.to_multiset().count(Pass::NaturalFlux) * m(Pass::NaturalFlux) == (n(
            Pass::NaturalFlux,
        ) + inc(Pass::NaturalFlux)) * m(Pass::NaturalFlux));
        assert(order.to_multiset().count(Pass::ArtificialFlux) * m(Pass::ArtificialFlux) == (n(
            Pass::ArtificialFlux,
        ) + inc(Pass::ArtificialFlux)) * m(Pass::ArtificialFlux));
        assert(order.to_multiset().count(Pass::JumpPenalty) * m(Pass::JumpPenalty) == (n(
            Pass::JumpPenalty,
        ) + inc(Pass::JumpPenalty)) * m(Pass::JumpPenalty));
        assert(order.to_multiset().count(Pass::Dirichlet) * m(Pass::Dirichlet) == (n(
            Pass::Dirichlet,
        ) + inc(Pass::Dirichlet)) * m(Pass::Dirichlet));
        assert(order.to_multiset().count(Pass::Neumann) * m(Pass::Neumann) == (n(Pass::Neumann)
            + inc(Pass::Neumann)) * m(Pass::Neumann));
    }
}

/// The passes may be run in any order: two runs of the same passes, each as
/// often in the one as in the other, add the same blocks the same number of
/// times. The sums that the blocks add up to then differ by rounding alone.
pub proof fn lemma_pass_order_is_immaterial(
    first: Seq<Pass>,
    second: Seq<Pass>,
    sigma: Scalar,
    domain: DomainView,
)
    requires
        first.to_multiset() == second.to_multiset(),
    ensures
        run(first, sigma, domain).to_multiset() == run(second, sigma, domain).to_multiset(),
{
    assert forall|block: ContributionView|
        run(first, sigma, domain).to_multiset().count(block) == run(
            second,
            sigma,
            domain,
        ).to_multiset().count(block) by {
        lemma_times_added(first, sigma, domain, block);
        lemma_times_added(second, sigma, domain, block);
    }
    assert(run(first, sigma, domain).to_multiset() =~= run(second, sigma, domain).to_multiset());
}

/// The blocks that are added up to the system of `domain` with the penalty
/// weight `sigma`.
///
/// The system has `3 n` unknowns for `n` triangles. Its matrix and its
/// right-hand side start from zero, and every block of the result is added
/// at the places that its index map gives.
pub fn build(sigma: Scalar, domain: &Domain) -> (plan: Vec<Contribution>)
    ensures
        views(plan@) == system_blocks(sigma, domain@),
        all_fit(views(plan@), domain@.system_size()),
{
    let mut plan: Vec<Contribution> = Vec::new();
    assert(views(plan@) =~= Seq::<ContributionView>::empty());
    let _ = mass::build(&mut plan, domain);
    let _ = flux_natural::build(&mut plan, domain);
    let _ = flux_artificial::build(&mut plan, domain);
    let _ = jump_penalty::build(&mut plan, sigma, domain);
    let _ = dirichlet::build(&mut plan, sigma, domain);
    let _ = neumann::build(&mut plan, domain);
    assert(views(plan@) =~= system_blocks(sigma, domain@));
    proof {
        use_type_invariant(domain);
        lemma_system_blocks_fit(sigma, domain@);
    }
    plan
}

} // verus!
