//! The triangulation with its adjacency, its numbering of unknowns and its
//! boundary constraints.

use vstd::prelude::*;
use crate::common::edge::Edge;
use crate::common::identity_map::IdentityMap;
use crate::common::scalar::Scalar;
use crate::triangle::element::TriangleElementL1;
use crate::triangle::system_builder::external::boundary_constraint::{
    BoundaryConstraint,
    BoundaryConstraintView,
};

verus! {

/// The mathematical content of a [`Domain`].
pub struct DomainView {
    /// The triangles, in the order in which they were inserted.
    pub elements: Seq<TriangleElementL1>,
    /// For each directed inner edge, the place of the triangle it belongs to.
    pub adjacency: Map<Edge, usize>,
    /// The Dirichlet constraints, in the order in which they were inserted.
    pub dirichlet_constraints: Seq<BoundaryConstraintView>,
    /// The Neumann constraints, in the order in which they were inserted.
    pub neumann_constraints: Seq<BoundaryConstraintView>,
}

impl DomainView {
    /// The number of unknowns: one for each vertex of each triangle.
    pub open spec fn system_size(self) -> nat {
        3 * self.elements.len()
    }

    /// The global index of the unknown at vertex `vertex` of the triangle at
    /// place `element`.
    pub open spec fn global_index(self, element: int, vertex: int) -> int {
        3 * element + vertex
    }

    /// The triangle at place `element` has `edge` among its inner edges.
    pub open spec fn owns(self, element: int, edge: Edge) -> bool {
        exists|k: int| 0 <= k < 3 && #[trigger] self.elements[element].inner_edge(k) == edge
    }

    /// An edge is interior where it and its opposed edge are both inner
    /// edges of a triangle.
    pub open spec fn is_interior(self, edge: Edge) -> bool {
        self.adjacency.contains_key(edge) && self.adjacency.contains_key(edge.opposed())
    }

    /// The adjacency holds the inner edges of the triangles and nothing else,
    /// and gives each the last triangle that it is an inner edge of.
    pub open spec fn adjacency_wf(self) -> bool {
        &&& forall|edge: Edge| #[trigger]
            self.adjacency.contains_key(edge) ==> self.adjacency[edge] < self.elements.len()
                && self.owns(self.adjacency[edge] as int, edge)
        &&& forall|i: int, k: int|
            0 <= i < self.elements.len() && 0 <= k < 3 ==> self.adjacency.contains_key(
                #[trigger] self.elements[i].inner_edge(k),
            ) && self.adjacency[self.elements[i].inner_edge(k)] >= i
    }

    /// The constraint is on an inner edge of its triangle.
    pub open spec fn constraint_wf(self, constraint: BoundaryConstraintView) -> bool {
        constraint.element < self.elements.len() && self.owns(
            constraint.element as int,
            constraint.boundary_edge,
        )
    }

    /// What holds of every domain: the machine can count its unknowns, its
    /// adjacency is that of its triangles, and each of its constraints is on
    /// an inner edge of the triangle it names.
    pub open spec fn wf(self) -> bool {
        &&& 3 * self.elements.len() <= usize::MAX
        &&& self.adjacency_wf()
        &&& forall|i: int|
            0 <= i < self.dirichlet_constraints.len() ==> self.constraint_wf(
                #[trigger] self.dirichlet_constraints[i],
            )
        &&& forall|i: int|
            0 <= i < self.neumann_constraints.len() ==> self.constraint_wf(
                #[trigger] self.neumann_constraints[i],
            )
    }

    /// The domain after the insertion of `triangle`.
    pub open spec fn with_element(self, triangle: TriangleElementL1) -> DomainView {
        let place = self.elements.len() as usize;
        DomainView {
            elements: self.elements.push(triangle),
            adjacency: self.adjacency.insert(triangle.inner_edge(0), place).insert(
                triangle.inner_edge(1),
                place,
            ).insert(triangle.inner_edge(2), place),
            ..self
        }
    }

    /// The constraint that gives the end points of `edge` the first two of
    /// `values`.
    pub open spec fn constraint(self, edge: Edge, values: Seq<Scalar>) -> BoundaryConstraintView {
        BoundaryConstraintView {
            element: self.adjacency[edge],
            boundary_edge: edge,
            values: map![edge.p1 => values[0]].insert(edge.p2, values[1]),
        }
    }
}

/// The domain without triangles and constraints.
pub open spec fn empty_domain() -> DomainView {
    DomainView {
        elements: Seq::empty(),
        adjacency: Map::empty(),
        dirichlet_constraints: Seq::empty(),
        neumann_constraints: Seq::empty(),
    }
}

/// The domain after the insertion of `triangles`, one after the other, into
/// the empty domain.
pub open spec fn domain_of(triangles: Seq<TriangleElementL1>) -> DomainView
    decreases triangles.len(),
{
    if triangles.len() == 0 {
        empty_domain()
    } else {
        domain_of(triangles.drop_last()).with_element(triangles.last())
    }
}

/// The views of a list of constraints.
pub open spec fn constraint_views(constraints: Seq<BoundaryConstraint>) -> Seq<
    BoundaryConstraintView,
> {
    constraints.map_values(|c: BoundaryConstraint| c@)
}

/// A triangulation of the domain of the problem, with the constraints on its
/// boundary.
///
/// Every vertex of every triangle has an unknown of its own: the triangle
/// inserted at place `i` has the global indices `3 i`, `3 i + 1` and
/// `3 i + 2`, in the order of its vertices, whether or not it shares a vertex
/// with another triangle. Edges are found in the adjacency by identity, so
/// two triangles are neighbours across an edge only where they give its end
/// points with the same coordinates, bit for bit.
pub struct Domain {
    elements: Vec<TriangleElementL1>,
    adjacency: IdentityMap<Edge, usize>,
    dirichlet_constraints: Vec<BoundaryConstraint>,
    neumann_constraints: Vec<BoundaryConstraint>,
}

impl View for Domain {
    type V = DomainView;

    closed spec fn view(&self) -> DomainView {
        DomainView {
            elements: self.elements@,
            adjacency: self.adjacency@,
            dirichlet_constraints: constraint_views(self.dirichlet_constraints@),
            neumann_constraints: constraint_views(self.neumann_constraints@),
        }
    }
}

impl Domain {
    /// Every domain is well-formed.
    #[verifier::type_invariant]
    pub open spec fn inv(self) -> bool {
        self@.wf()
    }

    /// The domain without triangles and constraints.
    pub fn new_empty() -> (domain: Domain)
        ensures
            domain@ == empty_domain(),
            domain@.wf(),
    {
        let domain = Domain {
            elements: Vec::new(),
            adjacency: IdentityMap::new(),
            dirichlet_constraints: Vec::new(),
            neumann_constraints: Vec::new(),
        };
        assert(domain@.dirichlet_constraints =~= Seq::<BoundaryConstraintView>::empty());
        assert(domain@.neumann_constraints =~= Seq::<BoundaryConstraintView>::empty());
        domain
    }

    /// The triangles, in the order in which they were inserted.
    pub fn elements(&self) -> (elements: &Vec<TriangleElementL1>)
        ensures
            elements@ == self@.elements,
            self@.wf(),
    {
        proof {
            use_type_invariant(self);
        }
        &self.elements
    }

    /// The Dirichlet constraints, in the order in which they were inserted.
    pub fn dirichlet_constraints(&self) -> (constraints: &Vec<BoundaryConstraint>)
        ensures
            constraint_views(constraints@) == self@.dirichlet_constraints,
            self@.wf(),
    {
        proof {
            use_type_invariant(self);
        }
        &self.dirichlet_constraints
    }

    /// The Neumann constraints, in the order in which they were inserted.
    pub fn neumann_constraints(&self) -> (constraints: &Vec<BoundaryConstraint>)
        ensures
            constraint_views(constraints@) == self@.neumann_constraints,
            self@.wf(),
    {
        proof {
            use_type_invariant(self);
        }
        &self.neumann_constraints
    }

    /// The place of the triangle that `edge` is an inner edge of, if it is one
    /// of any.
    pub fn adjacency(&self, edge: &Edge) -> (element: Option<usize>)
        ensures
            element == if self@.adjacency.contains_key(*edge) {
                Some(self@.adjacency[*edge])
            } else {
                None
            },
            self@.wf(),
    {
        proof {
            use_type_invariant(self);
        }
        match self.adjacency.get(edge) {
            Some(element) => Some(*element),
            None => None,
        }
    }

    /// The number of unknowns of the system.
    pub fn system_size(&self) -> (size: usize)
        ensures
            size == self@.system_size(),
            self@.wf(),
    {
        proof {
            use_type_invariant(self);
        }
        3 * self.elements.len()
    }

    /// The global index of the unknown at vertex `vertex` of the triangle at
    /// place `element`.
    pub fn index_mapping(&self, element: usize, vertex: usize) -> (index: usize)
        requires
            element < self@.elements.len(),
            vertex < 3,
        ensures
            index == 3 * element + vertex,
            index == self@.global_index(element as int, vertex as int),
            index < self@.system_size(),
    {
        proof {
            use_type_invariant(self);
        }
        3 * element + vertex
    }

    /// Appends `triangle` to the elements and enters its three inner edges
    /// into the adjacency. The triangle gets the next three global indices.
    pub fn insert_element(&mut self, triangle: &TriangleElementL1)
        requires
            3 * (old(self)@.elements.len() + 1) <= usize::MAX,
        ensures
            final(self)@ == old(self)@.with_element(*triangle),
            final(self)@.wf(),
    {
        proof {
            use_type_invariant(&*self);
        }
        let mut taken = Domain::new_empty();
        std::mem::swap(self, &mut taken);
        let Domain { mut elements, mut adjacency, dirichlet_constraints, neumann_constraints } =
            taken;
        let ghost before = DomainView {
            elements: elements@,
            adjacency: adjacency@,
            dirichlet_constraints: constraint_views(dirichlet_constraints@),
            neumann_constraints: constraint_views(neumann_constraints@),
        };
        let place = elements.len();
        let (e1, e2, e3) = triangle.inner_edges();
        elements.push(*triangle);
        adjacency.insert(e1, place);
        adjacency.insert(e2, place);
        adjacency.insert(e3, place);
        proof {
            lemma_with_element(before, *triangle);
        }
        *self = Domain { elements, adjacency, dirichlet_constraints, neumann_constraints };
    }

    /// Prescribes the first two of `values` at the tail and the head of
    /// `edge`, as a Dirichlet constraint on the triangle that the edge is an
    /// inner edge of.
    pub fn insert_dirichlet_constraint(&mut self, edge: &Edge, values: Vec<Scalar>)
        requires
            old(self)@.adjacency.contains_key(*edge),
            values@.len() >= 2,
        ensures
            final(self)@ == (DomainView {
                dirichlet_constraints: old(self)@.dirichlet_constraints.push(
                    old(self)@.constraint(*edge, values@),
                ),
                ..old(self)@
            }),
            final(self)@.wf(),
    {
        proof {
            use_type_invariant(&*self);
        }
        let element = *self.adjacency.get(edge).unwrap();
        let constraint = BoundaryConstraint::new(element, edge, values[0], values[1]);
        let mut taken = Domain::new_empty();
        std::mem::swap(self, &mut taken);
        let Domain { elements, adjacency, mut dirichlet_constraints, neumann_constraints } = taken;
        let ghost before = dirichlet_constraints@;
        dirichlet_constraints.push(constraint);
        proof {
            assert(constraint_views(before.push(constraint)) =~= constraint_views(before).push(
                constraint@,
            ));
        }
        *self = Domain { elements, adjacency, dirichlet_constraints, neumann_constraints };
    }

    /// Prescribes the first two of `values` at the tail and the head of
    /// `edge`, as a Neumann constraint on the triangle that the edge is an
    /// inner edge of.
    pub fn insert_neumann_constraint(&mut self, edge: &Edge, values: Vec<Scalar>)
        requires
            old(self)@.adjacency.contains_key(*edge),
            values@.len() >= 2,
        ensures
            final(self)@ == (DomainView {
                neumann_constraints: old(self)@.neumann_constraints.push(
                    old(self)@.constraint(*edge, values@),
                ),
                ..old(self)@
            }),
            final(self)@.wf(),
    {
        proof {
            use_type_invariant(&*self);
        }
        let element = *self.adjacency.get(edge).unwrap();
        let constraint = BoundaryConstraint::new(element, edge, values[0], values[1]);
        let mut taken = Domain::new_empty();
        std::mem::swap(self, &mut taken);
        let Domain { elements, adjacency, dirichlet_constraints, mut neumann_constraints } = taken;
        let ghost before = neumann_constraints@;
        neumann_constraints.push(constraint);
        proof {
            assert(constraint_views(before.push(constraint)) =~= constraint_views(before).push(
                constraint@,
            ));
        }
        *self = Domain { elements, adjacency, dirichlet_constraints, neumann_constraints };
    }
}

/// Inserting a triangle keeps a domain well-formed.
pub proof fn lemma_with_element(domain: DomainView, triangle: TriangleElementL1)
    requires
        domain.wf(),
        3 * (domain.elements.len() + 1) <= usize::MAX,
    ensures
        domain.with_element(triangle).wf(),
{
    let after = domain.with_element(triangle);
    let place = domain.elements.len() as usize;
    assert forall|edge: Edge| #[trigger] after.adjacency.contains_key(edge) implies after.adjacency[edge]
        < after.elements.len() && after.owns(after.adjacency[edge] as int, edge) by {
        if edge == triangle.inner_edge(0) || edge == triangle.inner_edge(1) || edge
            == triangle.inner_edge(2) {
            assert(after.adjacency[edge] == place);
            assert(after.elements[place as int] == triangle);
            let k = if edge == triangle.inner_edge(0) {
                0int
            } else if edge == triangle.inner_edge(1) {
                1int
            } else {
                2int
            };
            assert(after.elements[place as int].inner_edge(k) == edge);
        } else {
            assert(domain.adjacency.contains_key(edge));
            let i = domain.adjacency[edge] as int;
            let k = choose|k: int| 0 <= k < 3 && #[trigger] domain.elements[i].inner_edge(k) == edge;
            assert(after.elements[i].inner_edge(k) == edge);
        }
    }
    assert forall|i: int, k: int| 0 <= i < after.elements.len() && 0 <= k < 3 implies after.adjacency.contains_key(
        #[trigger] after.elements[i].inner_edge(k),
    ) && after.adjacency[after.elements[i].inner_edge(k)] >= i by {
        if i < domain.elements.len() {
            assert(domain.adjacency.contains_key(domain.elements[i].inner_edge(k)));
        }
    }
    assert forall|i: int| 0 <= i < after.dirichlet_constraints.len() implies after.constraint_wf(
        #[trigger] after.dirichlet_constraints[i],
    ) by {
        lemma_constraint_kept(domain, triangle, domain.dirichlet_constraints[i]);
    }
    assert forall|i: int| 0 <= i < after.neumann_constraints.len() implies after.constraint_wf(
        #[trigger] after.neumann_constraints[i],
    ) by {
        lemma_constraint_kept(domain, triangle, domain.neumann_constraints[i]);
    }
}

/// After the insertion of any number of triangles, the triangle inserted at
/// place `i` stands at place `i`, and its vertex `j` has the global index
/// `3 i + j`. The indices are below the size of the system, which is three
/// times the number of triangles, and no two vertices have the same index,
/// whether or not they are the same point.
pub proof fn lemma_indexing(triangles: Seq<TriangleElementL1>, i: int, j: int)
    requires
        0 <= i < triangles.len(),
        0 <= j < 3,
    ensures
        domain_of(triangles).elements == triangles,
        domain_of(triangles).system_size() == 3 * triangles.len(),
        domain_of(triangles).global_index(i, j) == 3 * i + j,
        domain_of(triangles).global_index(i, j) < domain_of(triangles).system_size(),
        forall|i2: int, j2: int|
            0 <= i2 < triangles.len() && 0 <= j2 < 3 && (i2 != i || j2 != j) ==> domain_of(
                triangles,
            ).global_index(i2, j2) != domain_of(triangles).global_index(i, j),
{
    lemma_domain_of(triangles);
}

/// The domain made of a list of triangles holds them in their order, and is
/// well-formed where its system has a size that the machine can hold.
pub proof fn lemma_domain_of(triangles: Seq<TriangleElementL1>)
    ensures
        domain_of(triangles).elements == triangles,
        domain_of(triangles).dirichlet_constraints.len() == 0,
        domain_of(triangles).neumann_constraints.len() == 0,
        3 * triangles.len() <= usize::MAX ==> domain_of(triangles).wf(),
    decreases triangles.len(),
{
    if triangles.len() > 0 {
        lemma_domain_of(triangles.drop_last());
        assert(triangles.drop_last().push(triangles.last()) =~= triangles);
        if 3 * triangles.len() <= usize::MAX {
            lemma_with_element(domain_of(triangles.drop_last()), triangles.last());
        }
    } else {
        assert(domain_of(triangles).elements =~= triangles);
    }
}

/// The insertion of a triangle leaves every triangle at its place, with its
/// global indices, and puts the new triangle behind them: it gets the three
/// indices that follow those in use.
pub proof fn lemma_insertion_keeps_indices(domain: DomainView, triangle: TriangleElementL1)
    ensures
        domain.with_element(triangle).elements.len() == domain.elements.len() + 1,
        domain.with_element(triangle).system_size() == domain.system_size() + 3,
        domain.with_element(triangle).elements[domain.elements.len() as int] == triangle,
        forall|i: int|
            0 <= i < domain.elements.len() ==> #[trigger] domain.with_element(
                triangle,
            ).elements[i] == domain.elements[i],
        forall|j: int|
            0 <= j < 3 ==> #[trigger] domain.with_element(triangle).global_index(
                domain.elements.len() as int,
                j,
            ) == domain.system_size() + j,
{
}

/// The adjacency holds exactly the inner edges of the triangles: an edge is
/// a key of it where some triangle owns the edge, and only there.
pub proof fn lemma_adjacency_keys(domain: DomainView, edge: Edge)
    requires
        domain.wf(),
    ensures
        domain.adjacency.contains_key(edge) <==> exists|i: int|
            0 <= i < domain.elements.len() && #[trigger] domain.owns(i, edge),
{
    if domain.adjacency.contains_key(edge) {
        assert(domain.owns(domain.adjacency[edge] as int, edge));
    }
    if exists|i: int| 0 <= i < domain.elements.len() && #[trigger] domain.owns(i, edge) {
        let i = choose|i: int| 0 <= i < domain.elements.len() && #[trigger] domain.owns(i, edge);
        let k = choose|k: int| 0 <= k < 3 && #[trigger] domain.elements[i].inner_edge(k) == edge;
        assert(domain.adjacency.contains_key(domain.elements[i].inner_edge(k)));
    }
}

/// The adjacency gives an inner edge the triangle it belongs to, where it is
/// an inner edge of that triangle alone. Where several triangles own the
/// edge, it gives the one inserted last.
pub proof fn lemma_adjacency_of_inner_edge(domain: DomainView, element: int, k: int)
    requires
        domain.wf(),
        0 <= element < domain.elements.len(),
        0 <= k < 3,
    ensures
        domain.adjacency.contains_key(domain.elements[element].inner_edge(k)),
        domain.adjacency[domain.elements[element].inner_edge(k)] >= element,
        domain.owns(
            domain.adjacency[domain.elements[element].inner_edge(k)] as int,
            domain.elements[element].inner_edge(k),
        ),
        (forall|j: int|
            element < j < domain.elements.len() ==> !#[trigger] domain.owns(
                j,
                domain.elements[element].inner_edge(k),
            )) ==> domain.adjacency[domain.elements[element].inner_edge(k)] == element,
{
    let edge = domain.elements[element].inner_edge(k);
    assert(domain.adjacency.contains_key(edge));
    assert(domain.owns(domain.adjacency[edge] as int, edge));
}

/// The edge of a constraint is a key of the adjacency, and the triangle of
/// the constraint owns it. The adjacency gives the edge that very triangle
/// unless a triangle inserted later owns the edge as well.
pub proof fn lemma_constraint_edge(domain: DomainView, constraint: BoundaryConstraintView)
    requires
        domain.wf(),
        domain.dirichlet_constraints.contains(constraint) || domain.neumann_constraints.contains(
            constraint,
        ),
    ensures
        constraint.element < domain.elements.len(),
        domain.owns(constraint.element as int, constraint.boundary_edge),
        domain.adjacency.contains_key(constraint.boundary_edge),
        domain.adjacency[constraint.boundary_edge] >= constraint.element,
        (forall|j: int|
            constraint.element < j < domain.elements.len() ==> !#[trigger] domain.owns(
                j,
                constraint.boundary_edge,
            )) ==> domain.adjacency[constraint.boundary_edge] == constraint.element,
{
    if domain.dirichlet_constraints.contains(constraint) {
        let i = choose|i: int|
            0 <= i < domain.dirichlet_constraints.len() && domain.dirichlet_constraints[i]
                == constraint;
        assert(domain.constraint_wf(domain.dirichlet_constraints[i]));
    } else {
        let i = choose|i: int|
            0 <= i < domain.neumann_constraints.len() && domain.neumann_constraints[i]
                == constraint;
        assert(domain.constraint_wf(domain.neumann_constraints[i]));
    }
    let element = constraint.element as int;
    let k = choose|k: int|
        0 <= k < 3 && #[trigger] domain.elements[element].inner_edge(k) == constraint.boundary_edge;
    lemma_adjacency_of_inner_edge(domain, element, k);
}

/// The two triangles at an interior edge are two: where no triangle of the
/// domain has a vertex twice, the adjacency gives different triangles for an
/// interior edge and for its opposed edge.
pub proof fn lemma_interior_edge_has_two_triangles(domain: DomainView, edge: Edge)
    requires
        domain.wf(),
        domain.is_interior(edge),
        forall|i: int| 0 <= i < domain.elements.len() ==> (#[trigger] domain.elements[i]).proper(),
    ensures
        domain.adjacency[edge] != domain.adjacency[edge.opposed()],
{
    let left = domain.adjacency[edge] as int;
    let right = domain.adjacency[edge.opposed()] as int;
    if left == right {
        let t = domain.elements[left];
        assert(t.proper());
        assert(domain.owns(left, edge));
        assert(domain.owns(right, edge.opposed()));
        let k1 = choose|k: int| 0 <= k < 3 && #[trigger] domain.elements[left].inner_edge(k) == edge;
        let k2 = choose|k: int|
            0 <= k < 3 && #[trigger] domain.elements[right].inner_edge(k) == edge.opposed();
        assert(t.inner_edge(k1).p1 == t.inner_edge(k2).p2);
        assert(t.inner_edge(k1).p2 == t.inner_edge(k2).p1);
    }
}

/// A constraint of a domain is one of the domain with one more triangle.
proof fn lemma_constraint_kept(
    domain: DomainView,
    triangle: TriangleElementL1,
    constraint: BoundaryConstraintView,
)
    requires
        domain.constraint_wf(constraint),
    ensures
        domain.with_element(triangle).constraint_wf(constraint),
{
    let after = domain.with_element(triangle);
    let i = constraint.element as int;
    let k = choose|k: int|
        0 <= k < 3 && #[trigger] domain.elements[i].inner_edge(k) == constraint.boundary_edge;
    assert(after.elements[i].inner_edge(k) == constraint.boundary_edge);
}

} // verus!
