use float_cmp::{ApproxEq, F64Margin};
use nalgebra::{DMatrix, Matrix2, Matrix2x1, Matrix3, Matrix3x1};

use sipg::common::edge::Edge;
use sipg::common::point::Point;
use sipg::common::scalar::Scalar;
use sipg::triangle::element::TriangleElementL1;
use sipg::triangle::system_builder::assembler_utils::{
    cross_map, linear_map, square_map, IndexMap,
};
use sipg::triangle::system_builder::builder::build;
use sipg::triangle::system_builder::contribution::{Contribution, Factor, Integrand, Target};
use sipg::triangle::system_builder::domain::Domain;
use sipg::triangle::system_builder::external::{dirichlet, neumann};
use sipg::triangle::system_builder::internal::{
    flux_artificial, flux_natural, jump_penalty, mass,
};

// The executor of a plan in double precision: conversions, the integrands in
// closed form, and the addition of local blocks into the dense system.

struct Position {
    x: f64,
    y: f64,
}

fn scalar(value: f64) -> Scalar {
    let (mantissa, exponent, sign) = num::Float::integer_decode(value);
    Scalar::new(mantissa, exponent, sign).unwrap()
}

fn number(scalar: &Scalar) -> f64 {
    f64::from_bits(scalar.to_bits())
}

fn point(x: f64, y: f64) -> Point {
    Point::new(scalar(x), scalar(y))
}

fn position(point: &Point) -> Position {
    Position { x: number(&point.x), y: number(&point.y) }
}

fn positions(element: &TriangleElementL1) -> (Position, Position, Position) {
    (position(&element.p1), position(&element.p2), position(&element.p3))
}

fn field_transformation(p1: &Position, p2: &Position, p3: &Position) -> Matrix3<f64> {
    Matrix3::new(
        1.0, p1.x, p1.y,
        1.0, p2.x, p2.y,
        1.0, p3.x, p3.y,
    )
}

fn coordinante_transformation(p1: &Position, p2: &Position, p3: &Position) -> Matrix3<f64> {
    Matrix3::new(
        1.0,
        0.0,
        0.0,
        p1.x,
        p2.x - p1.x,
        p3.x - p1.x,
        p1.y,
        p2.y - p1.y,
        p3.y - p1.y,
    )
}

fn mass_matrix(p1: &Position, p2: &Position, p3: &Position) -> Matrix3<f64> {
    let jacobian = jacobian(p1, p2, p3);
    return Matrix3::new(
        mass_ij(&jacobian, 0, 0),
        mass_ij(&jacobian, 0, 1),
        mass_ij(&jacobian, 0, 2),
        mass_ij(&jacobian, 1, 0),
        mass_ij(&jacobian, 1, 1),
        mass_ij(&jacobian, 1, 2),
        mass_ij(&jacobian, 2, 0),
        mass_ij(&jacobian, 2, 1),
        mass_ij(&jacobian, 2, 2),
    );
}

fn jacobian(p1: &Position, p2: &Position, p3: &Position) -> Matrix2<f64> {
    return Matrix2::new(p2.x - p1.x, p3.x - p1.x, p2.y - p1.y, p3.y - p1.y);
}

fn dphi(k: usize) -> Matrix2x1<f64> {
    match k {
        0 => Matrix2x1::new( -1.0, -1.0),
        1 => Matrix2x1::new( 1.0, 0.0),
        2 => Matrix2x1::new( 0.0, 1.0),
        _ => panic!("Not expected to request later polynomial"),
    }
}

fn mass_ij(jaco: &Matrix2<f64>, i: usize, j: usize) -> f64 {
    let jaco_inv = jaco.try_inverse().unwrap();

    let dphi_i = dphi(i);
    let dphi_j = dphi(j);

    let di_dx = dphi_i[0];
    let di_dy = dphi_i[1];
    let dj_dx = dphi_j[0];
    let dj_dy = dphi_j[1];

    let j11 = jaco_inv[(0, 0)];
    let j12 = jaco_inv[(0, 1)];
    let j21 = jaco_inv[(1, 0)];
    let j22 = jaco_inv[(1, 1)];

    let coef = j11 * j11 * di_dx * dj_dx
        + j11 * j12 * (di_dy * dj_dx + di_dx * dj_dy)
        + j12 * j12 * di_dy * dj_dy
        + j21 * j21 * di_dx * dj_dx
        + j21 * j22 * (di_dy * dj_dx + di_dx * dj_dy)
        + j22 * j22 * di_dy * dj_dy;

    return coef * jaco.determinant();
}

fn natural_half_flux(
    p1: &Position,
    p2: &Position,
    p3: &Position,
    p4: &Position,
    p5: &Position,
    p6: &Position,
    edge_index: usize,
) -> Matrix3<f64> {
    let foo = match edge_index {
        0 => Matrix3::new(
            0.0,
            0.0,
            (p1.x + p2.x + p1.y + p2.y) / 2.0 - 1.0,
            0.0,
            0.0,
            -(p1.x + p2.x) / 2.0,
            0.0,
            0.0,
            -(p1.y + p2.y) / 2.0,
        ),
        1 => Matrix3::new(
            0.0,
            -(p2.x + p3.x + p2.y + p3.y) / 2.0 + 1.0,
            -(p2.x + p3.x + p2.y + p3.y) / 2.0 + 1.0,
            0.0,
            (p2.x + p3.x) / 2.0,
            (p2.x + p3.x) / 2.0,
            0.0,
            (p2.y + p3.y) / 2.0,
            (p2.y + p3.y) / 2.0,
        ),
        2 => Matrix3::new(
            0.0,
            -(p1.x + p3.x + p1.y + p3.y) / 2.0 + 1.0,
            0.0,
            0.0,
            (p1.x + p3.x) / 2.0,
            0.0,
            0.0,
            (p1.y + p3.y) / 2.0,
            0.0,
        ),
        _ => panic!("Not expected to have edge index greater than 2 for triangle"),
    };
    return foo / 2.0
        * coordinante_transformation(p1, p2, p3).transpose()
        * field_transformation(p4, p5, p6)
            .try_inverse()
            .unwrap();
}

fn artificial_half_flux(
    p1: &Position,
    p2: &Position,
    p3: &Position,
    p4: &Position,
    p5: &Position,
    p6: &Position,
    edge_index: usize,
) -> Matrix3<f64> {
    let foo = match edge_index {
        0 => Matrix3::new(
            -p1.x + p3.x - p1.y + p3.y,
            (-p1.x + p3.x - p1.y + p3.y) / 2.0,
            0.0,
            p1.x - p3.x,
            (p1.x - p3.x) / 2.0,
            0.0,
            p1.y - p3.y,
            (p1.y - p3.y) / 2.0,
            0.0,
        ),
        1 => Matrix3::new(
            2.0 * p1.x - p2.x - p3.x + 2.0 * p1.y - p2.y - p3.y,
            (2.0 * p1.x - p2.x - p3.x + 2.0 * p1.y - p2.y - p3.y) / 2.0,
            (2.0 * p1.x - p2.x - p3.x + 2.0 * p1.y - p2.y - p3.y) / 2.0,
            -2.0 * p1.x + p2.x + p3.x,
            (-2.0 * p1.x + p2.x + p3.x) / 2.0,
            (-2.0 * p1.x + p2.x + p3.x) / 2.0,
            -2.0 * p1.y + p2.y + p3.y,
            (-2.0 * p1.y + p2.y + p3.y) / 2.0,
            (-2.0 * p1.y + p2.y + p3.y) / 2.0,
        ),
        2 => Matrix3::new(
            p1.x - p2.x + p1.y - p2.y,
            0.0,
            (p1.x - p2.x + p1.y - p2.y) / 2.0,
            -p1.x + p2.x,
            0.0,
            (-p1.x + p2.x) / 2.0,
            -p1.y + p2.y,
            0.0,
            (-p1.y + p2.y) / 2.0,
        ),
        _ => panic!("Not expected edge index greater than 2 for triangle"),
    };
    return foo / 2.0
        * coordinante_transformation(p1, p2, p3).transpose()
        * field_transformation(p4, p5, p6)
            .try_inverse()
            .unwrap();
}

fn bilinear_penalty(
    p1: &Position,
    p2: &Position,
    p3: &Position,
    p4: &Position,
    p5: &Position,
    p6: &Position,
    edge_index: usize,
) -> Matrix3<f64> {
    let sqrt_2 = (2.0 as f64).sqrt();
    let base = match edge_index {
        0 => Matrix3::new(
            -(p1.x + p2.x + p1.y + p2.y) / 2.0 + 1.0,
            -(p1.x / 6.0 + p2.x / 3.0 + p1.y / 6.0 + p2.y / 3.0) + 0.5,
            0.0,
            p1.x / 2.0 + p2.x / 2.0,
            p1.x / 6.0 + p2.x / 3.0,
            0.0,
            p1.y / 2.0 + p2.y / 2.0,
            p1.y / 6.0 + p2.y / 3.0,
            0.0,
        ),
        1 => Matrix3::new(
            (2.0 - p2.x - p3.x - p2.y - p3.y) * sqrt_2 / 2.0,
            (3.0 - 2.0 * p2.x - p3.x - 2.0 * p2.y - p3.y) * sqrt_2 / 6.0,
            (3.0 - p2.x - 2.0 * p3.x - p2.y - 2.0 * p3.y) * sqrt_2 / 6.0,
            (p2.x + p3.x) * sqrt_2 / 2.0,
            (2.0 * p2.x + p3.x) * sqrt_2 / 6.0,
            (p2.x + 2.0 * p3.x) * sqrt_2 / 6.0,
            (p2.y + p3.y) * sqrt_2 / 2.0,
            (2.0 * p2.y + p3.y) * sqrt_2 / 6.0,
            (p2.y + 2.0 * p3.y) * sqrt_2 / 6.0,
        ),
        2 => Matrix3::new(
            (p1.x + p3.x + p1.y + p3.y) / 2.0 - 1.0,
            0.0,
            p1.x / 6.0 + p3.x / 3.0 + p1.y / 6.0 + p3.y / 3.0 - 0.5,
            -p1.x / 2.0 - p3.x / 2.0,
            0.0,
            -p1.x / 6.0 - p3.x / 3.0,
            -p1.y / 2.0 - p3.y / 2.0,
            0.0,
            -p1.y / 6.0 - p3.y / 3.0,
        ),
        _ => panic!("Not expecting greater edge indices"),
    };
    return base
        * coordinante_transformation(p1, p2, p3).transpose()
        * field_transformation(p4, p5, p6)
            .try_inverse()
            .unwrap();
}

fn dirichlet_linear_natural(
    p1: &Position,
    p2: &Position,
    p3: &Position,
    u1: f64,
    u2: f64,
    u3: f64,
    edge_index: usize,
) -> Matrix3x1<f64> {
    let a = match edge_index {
        0 => Matrix3::new(
            (-p1.x + p3.x - p1.y + p3.y) / 2.0,
            (-p1.x + p3.x - p1.y + p3.y) / 2.0,
            0.0,
            (p1.x - p3.x) / 2.0,
            (p1.x - p3.x) / 2.0,
            0.0,
            (p1.y - p3.y) / 2.0,
            (p1.y - p3.y) / 2.0,
            0.0,
        ),
        1 => Matrix3::new(
            0.0,
            p1.x - p2.x / 2.0 - p3.x / 2.0 + p1.y - p2.y / 2.0 - p3.y / 2.0,
            p1.x - p2.x / 2.0 - p3.x / 2.0 + p1.y - p2.y / 2.0 - p3.y / 2.0,
            0.0,
            -p1.x + p2.x / 2.0 + p3.x / 2.0,
            -p1.x + p2.x / 2.0 + p3.x / 2.0,
            0.0,
            -p1.y + p2.y / 2.0 + p3.y / 2.0,
            -p1.y + p2.y / 2.0 + p3.y / 2.0,
        ),
        2 => Matrix3::new(
            (p1.x - p2.x + p1.y - p2.y) / 2.0,
            0.0,
            (p1.x - p2.x + p1.y - p2.y) / 2.0,
            (-p1.x + p2.x) / 2.0,
            0.0,
            (-p1.x + p2.x) / 2.0,
            (-p1.y + p2.y) / 2.0,
            0.0,
            (-p1.y + p2.y) / 2.0,
        ),
        _ => panic!("Not expecting edge"),
    };
    return a * Matrix3x1::new(u1, u2, u3);
}

fn dirichlet_bilinear_penalty(
    p1: &Position,
    p2: &Position,
    p3: &Position,
    edge_index: usize,
) -> Matrix3<f64> {
    let sqrt_2 = (2.0 as f64).sqrt();
    match edge_index {
        0 => Matrix3::new(
            -(p1.x / 3.0 + p2.x / 6.0 + p1.y / 3.0 + p2.y / 6.0) + 0.5,
            -(p1.x / 6.0 + p2.x / 3.0 + p1.y / 6.0 + p2.y / 3.0) + 0.5,
            0.0,
            p1.x / 3.0 + p2.x / 6.0,
            p1.x / 6.0 + p2.x / 3.0,
            0.0,
            p1.y / 3.0 + p2.y / 6.0,
            p1.y / 6.0 + p2.y / 3.0,
            0.0,
        ),
        1 => Matrix3::new(
            0.0,
            (-2.0 * p2.x - p3.x - 2.0 * p2.y - p3.y + 3.0) * sqrt_2 / 6.0,
            (-p2.x - 2.0 * p3.x - p2.y - 2.0 * p3.y + 3.0) * sqrt_2 / 6.0,
            0.0,
            (2.0 * p2.x + p3.x) * sqrt_2 / 6.0,
            (p2.x + 2.0 * p3.x) * sqrt_2 / 6.0,
            0.0,
            (2.0 * p2.y + p3.y) * sqrt_2 / 6.0,
            (p2.y + 2.0 * p3.y) * sqrt_2 / 6.0,
        ),
        2 => Matrix3::new(
            (p1.x / 3.0 + p3.x / 6.0 + p1.y / 3.0 + p3.y / 6.0) - 0.5,
            0.0,
            (p1.x / 6.0 + p3.x / 3.0 + p1.y / 6.0 + p3.y / 3.0) - 0.5,
            -(p1.x / 3.0 + p3.x / 6.0),
            0.0,
            -(p1.x / 6.0 + p3.x / 3.0),
            -(p1.y / 3.0 + p3.y / 6.0),
            0.0,
            -(p1.y / 6.0 + p3.y / 3.0),
        ),
        _ => panic!("Not expecting edge"),
    }
}

fn dirichlet_linear_penalty(
    p1: &Position,
    p2: &Position,
    p3: &Position,
    u1: f64,
    u2: f64,
    u3: f64,
    edge_index: usize,
) -> Matrix3x1<f64> {
    dirichlet_bilinear_penalty(p1, p2, p3, edge_index) * Matrix3x1::new(u1, u2, u3)
}

fn neumann(
    p1: &Position,
    p2: &Position,
    p3: &Position,
    u1: f64,
    u2: f64,
    u3: f64,
    edge_index: usize,
) -> Matrix3x1<f64> {
    let sqrt_2 = (2.0 as f64).sqrt();
    let foo = match edge_index {
        0 => Matrix3::new(
            -(p1.x / 3.0 + p2.x / 6.0 + p1.y / 3.0 + p2.y / 6.0) + 0.5,
            -(p1.x / 6.0 + p2.x / 3.0 + p1.y / 6.0 + p2.y / 3.0) + 0.5,
            0.0,
            p1.x / 3.0 + p2.x / 6.0,
            p1.x / 6.0 + p2.x / 3.0,
            0.0,
            p1.y / 3.0 + p2.y / 6.0,
            p1.y / 6.0 + p2.y / 3.0,
            0.0,
        ),
        1 => Matrix3::new(
            0.0,
            (-2.0 * p2.x - p3.x - 2.0 * p2.y - p3.y + 3.0) * sqrt_2 / 6.0,
            (-p2.x - 2.0 * p3.x - p2.y - 2.0 * p3.y + 3.0) * sqrt_2 / 6.0,
            0.0,
            (2.0 * p2.x + p3.x) * sqrt_2 / 6.0,
            (p2.x + 2.0 * p3.x) * sqrt_2 / 6.0,
            0.0,
            (2.0 * p2.y + p3.y) * sqrt_2 / 6.0,
            (p2.y + 2.0 * p3.y) * sqrt_2 / 6.0,
        ),
        2 => Matrix3::new(
            (p1.x / 3.0 + p3.x / 6.0 + p1.y / 3.0 + p3.y / 6.0) - 0.5,
            0.0,
            (p1.x / 6.0 + p3.x / 3.0 + p1.y / 6.0 + p3.y / 3.0) - 0.5,
            -(p1.x / 3.0 + p3.x / 6.0),
            0.0,
            -(p1.x / 6.0 + p3.x / 3.0),
            -(p1.y / 3.0 + p3.y / 6.0),
            0.0,
            -(p1.y / 6.0 + p3.y / 3.0),
        ),
        _ => panic!("Not expecting edge"),
    };
    return foo * Matrix3x1::new(u1, u2, u3);
}

fn map(global: &mut DMatrix<f64>, local: &DMatrix<f64>, index_map: &IndexMap) {
    for (local_index, global_index) in index_map.iter() {
        global[*global_index] += local[*local_index];
    }
}

fn evaluate(integrand: &Integrand) -> DMatrix<f64> {
    match integrand {
        Integrand::Mass { element } => {
            let (p1, p2, p3) = positions(element);
            mass_matrix(&p1, &p2, &p3).view((0, 0), (3, 3)).clone_owned()
        }
        Integrand::FluxNatural { element, neighbour, edge_index } => {
            let (p1, p2, p3) = positions(element);
            let (p4, p5, p6) = positions(neighbour);
            natural_half_flux(&p1, &p2, &p3, &p4, &p5, &p6, *edge_index)
                .view((0, 0), (3, 3))
                .clone_owned()
        }
        Integrand::FluxArtificial { element, neighbour, edge_index } => {
            let (p1, p2, p3) = positions(element);
            let (p4, p5, p6) = positions(neighbour);
            artificial_half_flux(&p1, &p2, &p3, &p4, &p5, &p6, *edge_index)
                .view((0, 0), (3, 3))
                .clone_owned()
        }
        Integrand::InterfacePenalty { element, neighbour, edge_index } => {
            let (p1, p2, p3) = positions(element);
            let (p4, p5, p6) = positions(neighbour);
            bilinear_penalty(&p1, &p2, &p3, &p4, &p5, &p6, *edge_index)
                .view((0, 0), (3, 3))
                .clone_owned()
        }
        Integrand::DirichletBilinearPenalty { element, edge_index } => {
            let (p1, p2, p3) = positions(element);
            dirichlet_bilinear_penalty(&p1, &p2, &p3, *edge_index)
                .view((0, 0), (3, 3))
                .clone_owned()
        }
        Integrand::DirichletLinearNatural { element, values, edge_index } => {
            let (p1, p2, p3) = positions(element);
            let (u1, u2, u3) = (number(&values.0), number(&values.1), number(&values.2));
            dirichlet_linear_natural(&p1, &p2, &p3, u1, u2, u3, *edge_index)
                .view((0, 0), (3, 1))
                .clone_owned()
        }
        Integrand::DirichletLinearPenalty { element, values, edge_index } => {
            let (p1, p2, p3) = positions(element);
            let (u1, u2, u3) = (number(&values.0), number(&values.1), number(&values.2));
            dirichlet_linear_penalty(&p1, &p2, &p3, u1, u2, u3, *edge_index)
                .view((0, 0), (3, 1))
                .clone_owned()
        }
        Integrand::Neumann { element, values, edge_index } => {
            let (p1, p2, p3) = positions(element);
            let (u1, u2, u3) = (number(&values.0), number(&values.1), number(&values.2));
            neumann(&p1, &p2, &p3, u1, u2, u3, *edge_index).view((0, 0), (3, 1)).clone_owned()
        }
    }
}

fn scale(factor: &Factor, local: DMatrix<f64>) -> DMatrix<f64> {
    match factor {
        Factor::Plus => local,
        Factor::Minus => -local,
        Factor::Sigma(sigma) => number(sigma) * local,
        Factor::MinusSigma(sigma) => -number(sigma) * local,
    }
}

fn accumulate(
    system_matrix: &mut DMatrix<f64>,
    extern_matrix: &mut DMatrix<f64>,
    plan: &[Contribution],
) {
    for contribution in plan.iter() {
        let local = scale(&contribution.factor, evaluate(&contribution.integrand));
        match contribution.target {
            Target::SystemMatrix => map(system_matrix, &local, &contribution.index_map),
            Target::ExternMatrix => map(extern_matrix, &local, &contribution.index_map),
        }
    }
}

fn assemble(sigma: f64, domain: &Domain) -> (DMatrix<f64>, DMatrix<f64>) {
    let system_size = domain.system_size();
    let mut system_matrix: DMatrix<f64> = DMatrix::<f64>::zeros(system_size, system_size);
    let mut extern_matrix: DMatrix<f64> = DMatrix::<f64>::zeros(system_size, 1);
    let plan = build(scalar(sigma), domain);
    accumulate(&mut system_matrix, &mut extern_matrix, &plan);
    (system_matrix, extern_matrix)
}

fn dirichlet_constraint(domain: &mut Domain, edge: &Edge, values: Vec<f64>) {
    domain.insert_dirichlet_constraint(edge, values.iter().map(|v| scalar(*v)).collect());
}

fn neumann_constraint(domain: &mut Domain, edge: &Edge, values: Vec<f64>) {
    domain.insert_neumann_constraint(edge, values.iter().map(|v| scalar(*v)).collect());
}

fn error(sigma: f64, domain: &Domain, expected: &[f64]) -> f64 {
    let (system_matrix, extern_matrix) = assemble(sigma, domain);
    let inverse = system_matrix.try_inverse().unwrap();
    let answer = inverse * extern_matrix;
    let expected = DMatrix::<f64>::from_row_slice(expected.len(), 1, expected);
    ((&answer - &expected).transpose() * (&answer - &expected))[(0, 0)].sqrt()
}

fn norm(values: &[f64]) -> f64 {
    values.iter().map(|v| v * v).sum::<f64>().sqrt()
}

fn hexagon() -> (Domain, [Point; 7]) {
    let p1 = point(2.0, 1.0);
    let p2 = point(3.0, 2.0);
    let p3 = point(3.0, 4.0);
    let p4 = point(2.0, 5.0);
    let p5 = point(1.0, 4.0);
    let p6 = point(1.0, 2.0);
    let p7 = point(2.0, 3.0);

    let mut domain = Domain::new_empty();
    domain.insert_element(&TriangleElementL1::new(&p1, &p2, &p7));
    domain.insert_element(&TriangleElementL1::new(&p2, &p3, &p7));
    domain.insert_element(&TriangleElementL1::new(&p3, &p4, &p7));
    domain.insert_element(&TriangleElementL1::new(&p4, &p5, &p7));
    domain.insert_element(&TriangleElementL1::new(&p5, &p6, &p7));
    domain.insert_element(&TriangleElementL1::new(&p6, &p1, &p7));
    (domain, [p1, p2, p3, p4, p5, p6, p7])
}

fn square() -> (Domain, [Point; 4]) {
    let p1 = point(0.0, 0.0);
    let p2 = point(1.0, 0.0);
    let p3 = point(1.0, 1.0);
    let p4 = point(0.0, 1.0);

    let mut domain = Domain::new_empty();
    domain.insert_element(&TriangleElementL1::new(&p1, &p2, &p4));
    domain.insert_element(&TriangleElementL1::new(&p4, &p2, &p3));
    (domain, [p1, p2, p3, p4])
}

#[test]
fn mass_sample_1() {
    let (domain, _) = square();

    let mut system_matrix: DMatrix<f64> = DMatrix::<f64>::zeros(6, 6);
    let mut extern_matrix: DMatrix<f64> = DMatrix::<f64>::zeros(6, 1);

    let mut plan = Vec::new();
    mass::build(&mut plan, &domain).unwrap();
    accumulate(&mut system_matrix, &mut extern_matrix, &plan);

    assert_eq!(system_matrix[(0, 0)], 2.0);
    assert_eq!(system_matrix[(0, 1)], -1.0);
    assert_eq!(system_matrix[(0, 2)], -1.0);
    assert_eq!(system_matrix[(1, 1)], 1.0);
    assert_eq!(system_matrix[(2, 2)], 1.0);
}

#[test]
fn mass_sample_2() {
    let (domain, _) = hexagon();

    let variables_length = domain.elements().len() * 3;
    let mut system_matrix: DMatrix<f64> =
        DMatrix::<f64>::zeros(variables_length, variables_length);
    let mut extern_matrix: DMatrix<f64> = DMatrix::<f64>::zeros(variables_length, 1);

    let mut plan = Vec::new();
    mass::build(&mut plan, &domain).unwrap();
    accumulate(&mut system_matrix, &mut extern_matrix, &plan);

    assert_eq!(system_matrix[(0, 0)], 2.0);
    assert_eq!(system_matrix[(0, 1)], -2.0);
    assert_eq!(system_matrix[(0, 2)], 0.0);
    assert_eq!(system_matrix[(1, 1)], 2.5);
    assert_eq!(system_matrix[(1, 2)], -0.5);
    assert_eq!(system_matrix[(2, 2)], 0.5);
}

#[test]
fn mass_of_the_reference_triangle() {
    let mut domain = Domain::new_empty();
    domain.insert_element(&TriangleElementL1::new(
        &point(0.0, 0.0),
        &point(1.0, 0.0),
        &point(0.0, 1.0),
    ));
    let mut system_matrix: DMatrix<f64> = DMatrix::<f64>::zeros(3, 3);
    let mut extern_matrix: DMatrix<f64> = DMatrix::<f64>::zeros(3, 1);
    let mut plan = Vec::new();
    mass::build(&mut plan, &domain).unwrap();
    accumulate(&mut system_matrix, &mut extern_matrix, &plan);

    let expected =
        DMatrix::<f64>::from_row_slice(3, 3, &[2.0, -1.0, -1.0, -1.0, 1.0, 0.0, -1.0, 0.0, 1.0]);
    assert_eq!(system_matrix, expected);
    assert_eq!(extern_matrix, DMatrix::<f64>::zeros(3, 1));
}

#[test]
fn jump_penalty_sample_1() {
    let p1 = point(0.0, 0.0);
    let p2 = point(1.0, 0.0);
    let p3 = point(1.0, 1.0);
    let p4 = point(0.0, 1.0);

    let t1 = TriangleElementL1::new(&p1, &p2, &p4);
    let t2 = TriangleElementL1::new(&p3, &p4, &p2);

    let mut domain = Domain::new_empty();
    domain.insert_element(&t1);
    domain.insert_element(&t2);

    let (q1, q2, q3, q4) = (position(&p1), position(&p2), position(&p3), position(&p4));

    let mut system_matrix: DMatrix<f64> = DMatrix::<f64>::zeros(6, 6);

    map(
        &mut system_matrix,
        &dirichlet_bilinear_penalty(&q1, &q2, &q4, 0).view((0, 0), (3, 3)).clone_owned(),
        &square_map(0, 1, 2),
    );
    map(
        &mut system_matrix,
        &dirichlet_bilinear_penalty(&q1, &q2, &q4, 2).view((0, 0), (3, 3)).clone_owned(),
        &square_map(0, 1, 2),
    );
    map(
        &mut system_matrix,
        &dirichlet_bilinear_penalty(&q3, &q4, &q2, 0).view((0, 0), (3, 3)).clone_owned(),
        &square_map(3, 4, 5),
    );
    map(
        &mut system_matrix,
        &dirichlet_bilinear_penalty(&q3, &q4, &q2, 2).view((0, 0), (3, 3)).clone_owned(),
        &square_map(3, 4, 5),
    );

    let mut extern_matrix = DMatrix::<f64>::zeros(6, 1);

    let mut plan = Vec::new();
    jump_penalty::build(&mut plan, scalar(1.0), &domain).unwrap();
    accumulate(&mut system_matrix, &mut extern_matrix, &plan);
    assert_eq!(extern_matrix, DMatrix::<f64>::zeros(6, 1));

    map(
        &mut extern_matrix,
        &dirichlet_linear_penalty(&q1, &q2, &q4, 0.0, 0.0, 2.0, 0).view((0, 0), (3, 1)).clone_owned(),
        &linear_map(0, 1, 2),
    );
    map(
        &mut extern_matrix,
        &dirichlet_linear_penalty(&q1, &q2, &q4, 0.0, 0.0, 2.0, 2).view((0, 0), (3, 1)).clone_owned(),
        &linear_map(0, 1, 2),
    );
    map(
        &mut extern_matrix,
        &dirichlet_linear_penalty(&q3, &q4, &q2, 0.0, 2.0, 0.0, 0).view((0, 0), (3, 1)).clone_owned(),
        &linear_map(3, 4, 5),
    );
    map(
        &mut extern_matrix,
        &dirichlet_linear_penalty(&q3, &q4, &q2, 0.0, 2.0, 0.0, 2).view((0, 0), (3, 1)).clone_owned(),
        &linear_map(3, 4, 5),
    );

    let solution = system_matrix.try_inverse().unwrap() * extern_matrix;
    let expected = DMatrix::<f64>::from_row_slice(6, 1, &vec![0.0, 0.0, 2.0, 0.0, 2.0, 0.0]);

    let error = ((&solution - &expected).transpose() * (&solution - &expected))[(0, 0)].sqrt();

    assert_eq!(error, 0.375);
}

fn hexagon_with_dirichlet_data() -> Domain {
    let (mut domain, [p1, p2, p3, p4, p5, p6, _]) = hexagon();

    let e1 = Edge::new(&p1, &p2);
    let e2 = Edge::new(&p2, &p3);
    let e3 = Edge::new(&p3, &p4);
    let e4 = Edge::new(&p4, &p5);
    let e5 = Edge::new(&p5, &p6);
    let e6 = Edge::new(&p6, &p1);

    dirichlet_constraint(&mut domain, &e1, vec![0.0, 1.0]);
    dirichlet_constraint(&mut domain, &e2, vec![1.0, 1.0]);
    dirichlet_constraint(&mut domain, &e3, vec![1.0, 0.0]);
    dirichlet_constraint(&mut domain, &e4, vec![0.0, 0.0]);
    dirichlet_constraint(&mut domain, &e5, vec![0.0, 0.0]);
    dirichlet_constraint(&mut domain, &e6, vec![0.0, 0.0]);
    domain
}

const HEXAGON_EXPECTED: [f64; 18] = [
    0.0, 1.0, -1.0, //
    1.0, 1.0, -1.0, //
    1.0, 0.0, -1.0, //
    0.0, 0.0, -1.0, //
    0.0, 0.0, -1.0, //
    0.0, 0.0, -1.0, //
];

fn square_with_dirichlet_data() -> Domain {
    let (mut domain, [p1, p2, p3, p4]) = square();

    let e1 = Edge::new(&p1, &p2);
    let e2 = Edge::new(&p2, &p3);
    let e3 = Edge::new(&p3, &p4);
    let e4 = Edge::new(&p4, &p1);

    dirichlet_constraint(&mut domain, &e1, vec![0.0, 0.0]);
    dirichlet_constraint(&mut domain, &e2, vec![0.0, 0.0]);
    dirichlet_constraint(&mut domain, &e3, vec![0.0, 1.0]);
    dirichlet_constraint(&mut domain, &e4, vec![1.0, 0.0]);
    domain
}

fn square_with_mixed_data() -> Domain {
    let (mut domain, [p1, p2, p3, p4]) = square();

    let e1 = Edge::new(&p1, &p2);
    let e2 = Edge::new(&p2, &p3);
    let e3 = Edge::new(&p3, &p4);
    let e4 = Edge::new(&p4, &p1);

    dirichlet_constraint(&mut domain, &e1, vec![0.0, 0.0]);
    dirichlet_constraint(&mut domain, &e3, vec![1.0, 1.0]);
    neumann_constraint(&mut domain, &e2, vec![0.0, 0.0]);
    neumann_constraint(&mut domain, &e4, vec![0.0, 0.0]);
    domain
}

fn triangle_with_dirichlet_data() -> Domain {
    let p1 = point(0.0, 0.0);
    let p2 = point(1.0, 0.0);
    let p4 = point(0.0, 1.0);

    let e1 = Edge::new(&p1, &p2);
    let ed = Edge::new(&p2, &p4);
    let e4 = Edge::new(&p4, &p1);

    let t1 = TriangleElementL1::new(&p1, &p2, &p4);

    let mut domain = Domain::new_empty();
    domain.insert_element(&t1);

    dirichlet_constraint(&mut domain, &e1, vec![0.0, 1.0]);
    dirichlet_constraint(&mut domain, &ed, vec![1.0, 0.0]);
    dirichlet_constraint(&mut domain, &e4, vec![0.0, 0.0]);
    domain
}

#[test]
fn builder_sample_1() {
    let domain = hexagon_with_dirichlet_data();

    let err1 = error(10.0, &domain, &HEXAGON_EXPECTED);
    let err2 = error(100.0, &domain, &HEXAGON_EXPECTED);
    let err3 = error(1000.0, &domain, &HEXAGON_EXPECTED);
    let err4 = error(10000.0, &domain, &HEXAGON_EXPECTED);
    let err5 = error(100000.0, &domain, &HEXAGON_EXPECTED);

    assert!(err2 < err1);
    assert!(err3 < err2);
    assert!(err4 < err3);
    assert!(err5 < err4);
}

#[test]
fn builder_sample_2() {
    let domain = square_with_dirichlet_data();
    let expected = [0.0, 0.0, 1.0, 1.0, 0.0, 0.0];

    let err1 = error(10.0, &domain, &expected);
    let err2 = error(100.0, &domain, &expected);
    let err3 = error(1000.0, &domain, &expected);
    let err4 = error(10000.0, &domain, &expected);
    let err5 = error(100000.0, &domain, &expected);

    assert!(err2 < err1);
    assert!(err3 < err2);
    assert!(err4 < err3);
    assert!(err5 < err4);
}

#[test]
fn builder_sample_3() {
    let domain = triangle_with_dirichlet_data();
    let expected = [0.0, 1.0, 0.0];

    let err1 = error(1.0, &domain, &expected);
    let err2 = error(10.0, &domain, &expected);
    let err3 = error(100.0, &domain, &expected);
    let err4 = error(1000.0, &domain, &expected);

    assert!(err2 < err1);
    assert!(err3 < err2);
    assert!(err4 < err3);
}

#[test]
fn sample_4() {
    let domain = square_with_mixed_data();
    let expected = [0.0, 0.0, 1.0, 1.0, 0.0, 1.0];

    let err1 = error(10.0, &domain, &expected);
    let err2 = error(100.0, &domain, &expected);
    let err3 = error(1000.0, &domain, &expected);
    let err4 = error(10000.0, &domain, &expected);
    let err5 = error(100000.0, &domain, &expected);
    println!("{} {}", err4, err5);

    assert!(err2 < err1);
    assert!(err3 < err2);
    assert!(err4 < err3);
    assert!(err5 < err4);
}

#[test]
fn unit_triangle_with_dirichlet_data_is_solved() {
    let domain = triangle_with_dirichlet_data();
    let expected = [0.0, 1.0, 0.0];
    assert!(error(10000.0, &domain, &expected) <= 0.05 * norm(&expected));
}

#[test]
fn unit_square_with_dirichlet_data_is_solved() {
    let domain = square_with_dirichlet_data();
    let expected = [0.0, 0.0, 1.0, 1.0, 0.0, 0.0];
    assert!(error(10000.0, &domain, &expected) <= 0.05 * norm(&expected));
}

#[test]
fn hexagon_with_dirichlet_data_is_solved() {
    let domain = hexagon_with_dirichlet_data();
    assert!(error(10000.0, &domain, &HEXAGON_EXPECTED) <= 0.05 * norm(&HEXAGON_EXPECTED));

    let (system_matrix, extern_matrix) = assemble(10000.0, &domain);
    let answer = system_matrix.try_inverse().unwrap() * extern_matrix;
    for element in 0..6 {
        assert!((answer[(3 * element + 2, 0)] + 1.0).abs() < 0.05);
        assert!((answer[(3 * element, 0)] - HEXAGON_EXPECTED[3 * element]).abs() < 0.05);
        assert!((answer[(3 * element + 1, 0)] - HEXAGON_EXPECTED[3 * element + 1]).abs() < 0.05);
    }
}

#[test]
fn square_with_mixed_data_is_solved() {
    let domain = square_with_mixed_data();
    let expected = [0.0, 0.0, 1.0, 1.0, 0.0, 1.0];
    assert!(error(10000.0, &domain, &expected) <= 0.05 * norm(&expected));
}

#[test]
fn unit_triangle_error_decreases_with_sigma() {
    let domain = triangle_with_dirichlet_data();
    let expected = [0.0, 1.0, 0.0];
    let errors: Vec<f64> =
        [10.0, 100.0, 1000.0, 10000.0].iter().map(|s| error(*s, &domain, &expected)).collect();
    assert!(errors[1] < errors[0]);
    assert!(errors[2] < errors[1]);
    assert!(errors[3] < errors[2]);
}

#[test]
fn passes_in_any_order_give_the_same_system() {
    let domain = square_with_mixed_data();
    let sigma = 100.0;
    let size = domain.system_size();
    assert_eq!(size, 6);

    let (system_matrix, extern_matrix) = assemble(sigma, &domain);

    let mut plan = Vec::new();
    neumann::build(&mut plan, &domain).unwrap();
    dirichlet::build(&mut plan, scalar(sigma), &domain).unwrap();
    jump_penalty::build(&mut plan, scalar(sigma), &domain).unwrap();
    flux_artificial::build(&mut plan, &domain).unwrap();
    flux_natural::build(&mut plan, &domain).unwrap();
    mass::build(&mut plan, &domain).unwrap();
    assert_eq!(plan.len(), build(scalar(sigma), &domain).len());

    let mut reordered_system: DMatrix<f64> = DMatrix::<f64>::zeros(size, size);
    let mut reordered_extern: DMatrix<f64> = DMatrix::<f64>::zeros(size, 1);
    accumulate(&mut reordered_system, &mut reordered_extern, &plan);

    for row in 0..size {
        for column in 0..size {
            let difference = system_matrix[(row, column)] - reordered_system[(row, column)];
            assert!(difference.abs() <= 1.0e-9 * (1.0 + system_matrix[(row, column)].abs()));
        }
        let difference = extern_matrix[(row, 0)] - reordered_extern[(row, 0)];
        assert!(difference.abs() <= 1.0e-9 * (1.0 + extern_matrix[(row, 0)].abs()));
    }
}

#[test]
fn entries_that_no_block_touches_stay_zero() {
    let (domain, _) = hexagon();
    let (system_matrix, extern_matrix) = assemble(10.0, &domain);
    // the first and the fourth triangle share no edge
    for row in 0..3 {
        for column in 9..12 {
            assert_eq!(system_matrix[(row, column)], 0.0);
            assert_eq!(system_matrix[(column, row)], 0.0);
        }
    }
    assert_eq!(extern_matrix, DMatrix::<f64>::zeros(18, 1));
}

fn approx_eq(left: f64, right: f64) -> bool {
    left.approx_eq(right, F64Margin { epsilon: 1.0E-14f64, ulps: 0 })
}

#[test]
fn mass_matrix_sample_1() {
    let p1 = Position { x: 0.0, y: 0.0 };
    let p2 = Position { x: 1.0, y: 0.0 };
    let p3 = Position { x: 0.0, y: 1.0 };

    let jaco = jacobian(&p1, &p2, &p3);

    assert_eq!(mass_ij(&jaco, 0, 0), 2.0);
    assert_eq!(mass_ij(&jaco, 0, 1), -1.0);
    assert_eq!(mass_ij(&jaco, 0, 2), -1.0);
    assert_eq!(mass_ij(&jaco, 1, 0), -1.0);
    assert_eq!(mass_ij(&jaco, 1, 1), 1.0);
    assert_eq!(mass_ij(&jaco, 1, 2), 0.0);
    assert_eq!(mass_ij(&jaco, 2, 0), -1.0);
    assert_eq!(mass_ij(&jaco, 2, 1), 0.0);
    assert_eq!(mass_ij(&jaco, 2, 2), 1.0);
}

#[test]
fn mass_matrix_sample_2() {
    let p1 = Position { x: 0.0, y: 0.0 };
    let p2 = Position { x: 0.1, y: 0.0 };
    let p3 = Position { x: 0.0, y: 0.1 };

    let jaco = jacobian(&p1, &p2, &p3);

    assert!(approx_eq(mass_ij(&jaco, 0, 0), 2.0));
    assert!(approx_eq(mass_ij(&jaco, 0, 1), -1.0));
    assert!(approx_eq(mass_ij(&jaco, 0, 2), -1.0));
    assert!(approx_eq(mass_ij(&jaco, 1, 0), -1.0));
    assert!(approx_eq(mass_ij(&jaco, 1, 1), 1.0));
    assert!(approx_eq(mass_ij(&jaco, 1, 2), 0.0));
    assert!(approx_eq(mass_ij(&jaco, 2, 0), -1.0));
    assert!(approx_eq(mass_ij(&jaco, 2, 1), 0.0));
    assert!(approx_eq(mass_ij(&jaco, 2, 2), 1.0));
}

#[test]
fn flux_natural_sample_1() {
    let p1 = Position { x: 0.0, y: 0.0 };
    let p2 = Position { x: 1.0, y: 0.0 };
    let p3 = Position { x: 0.0, y: 1.0 };

    let edge_1 = natural_half_flux(&p1, &p2, &p3, &p1, &p2, &p3, 0);
    assert_eq!(edge_1[(0, 0)], 0.25);
    assert_eq!(edge_1[(0, 1)], 0.0);
    assert_eq!(edge_1[(0, 2)], -0.25);

    assert_eq!(edge_1[(1, 0)], 0.25);
    assert_eq!(edge_1[(1, 1)], 0.0);
    assert_eq!(edge_1[(1, 2)], -0.25);

    assert_eq!(edge_1[(2, 0)], 0.0);
    assert_eq!(edge_1[(2, 1)], 0.0);
    assert_eq!(edge_1[(2, 2)], 0.0);

    let edge_2 = natural_half_flux(&p1, &p2, &p3, &p1, &p2, &p3, 1);
    assert_eq!(edge_2[(0, 0)], 0.0);
    assert_eq!(edge_2[(0, 1)], 0.0);
    assert_eq!(edge_2[(0, 2)], 0.0);

    assert_eq!(edge_2[(1, 0)], -0.5);
    assert_eq!(edge_2[(1, 1)], 0.25);
    assert_eq!(edge_2[(1, 2)], 0.25);

    assert_eq!(edge_2[(2, 0)], -0.5);
    assert_eq!(edge_2[(2, 1)], 0.25);
    assert_eq!(edge_2[(2, 2)], 0.25);

    let edge_3 = natural_half_flux(&p1, &p2, &p3, &p1, &p2, &p3, 2);
    assert_eq!(edge_3[(0, 0)], -0.25);
    assert_eq!(edge_3[(0, 1)], 0.25);
    assert_eq!(edge_3[(0, 2)], 0.0);

    assert_eq!(edge_3[(1, 0)], 0.0);
    assert_eq!(edge_3[(1, 1)], 0.0);
    assert_eq!(edge_3[(1, 2)], 0.0);

    assert_eq!(edge_3[(2, 0)], -0.25);
    assert_eq!(edge_3[(2, 1)], 0.25);
    assert_eq!(edge_3[(2, 2)], 0.0);
}

fn penalty_solution(p1: &Position, p2: &Position, p3: &Position) -> DMatrix<f64> {
    let mut system_matrix = DMatrix::<f64>::zeros(3, 3);
    system_matrix += dirichlet_bilinear_penalty(p1, p2, p3, 0);
    system_matrix += dirichlet_bilinear_penalty(p1, p2, p3, 1);
    system_matrix += dirichlet_bilinear_penalty(p1, p2, p3, 2);

    let mut extern_matrix = DMatrix::<f64>::zeros(3, 1);
    extern_matrix += dirichlet_linear_penalty(p1, p2, p3, 2.0, 0.0, 0.0, 0);
    extern_matrix += dirichlet_linear_penalty(p1, p2, p3, 2.0, 0.0, 0.0, 1);
    extern_matrix += dirichlet_linear_penalty(p1, p2, p3, 2.0, 0.0, 0.0, 2);

    system_matrix.try_inverse().unwrap() * extern_matrix
}

#[test]
fn dirichlet_constraint_sample_1() {
    let p1 = Position { x: 0.0, y: 0.0 };
    let p2 = Position { x: 1.0, y: 0.0 };
    let p3 = Position { x: 0.0, y: 1.0 };

    let solution = penalty_solution(&p1, &p2, &p3);
    assert!(approx_eq(solution[(0, 0)], 2.0));
    assert!(approx_eq(solution[(1, 0)], 0.0));
    assert!(approx_eq(solution[(2, 0)], 0.0));
}

#[test]
fn dirichlet_constraint_sample_2() {
    let p1 = Position { x: 0.0, y: 0.0 };
    let p2 = Position { x: 3.3, y: 0.0 };
    let p3 = Position { x: 0.0, y: 8.43214 };

    let solution = penalty_solution(&p1, &p2, &p3);
    assert!(approx_eq(solution[(0, 0)], 2.0));
    assert!(approx_eq(solution[(1, 0)], 0.0));
    assert!(approx_eq(solution[(2, 0)], 0.0));
}

#[test]
fn dirichlet_constraint_sample_3() {
    let p1 = Position { x: 0.0, y: 0.0 };
    let p2 = Position { x: 1.0, y: 0.0 };
    let p3 = Position { x: 0.0, y: 1.0 };

    fn solve(p1: &Position, p2: &Position, p3: &Position, sigma: f64) -> DMatrix<f64> {
        let mut system_matrix = DMatrix::<f64>::zeros(3, 3);
        system_matrix += dirichlet_bilinear_penalty(p1, p2, p3, 0) * sigma;
        system_matrix += dirichlet_bilinear_penalty(p1, p2, p3, 1) * sigma;
        system_matrix += dirichlet_bilinear_penalty(p1, p2, p3, 2) * sigma;

        let mut extern_matrix = DMatrix::<f64>::zeros(3, 1);
        extern_matrix += dirichlet_linear_penalty(p1, p2, p3, 2.0, 0.0, 0.0, 0) * sigma;
        extern_matrix += dirichlet_linear_penalty(p1, p2, p3, 2.0, 0.0, 0.0, 1) * sigma;
        extern_matrix += dirichlet_linear_penalty(p1, p2, p3, 2.0, 0.0, 0.0, 2) * sigma;

        extern_matrix += dirichlet_linear_natural(p1, p2, p3, 2.0, 0.0, 0.0, 0);
        extern_matrix += dirichlet_linear_natural(p1, p2, p3, 2.0, 0.0, 0.0, 1);
        extern_matrix += dirichlet_linear_natural(p1, p2, p3, 2.0, 0.0, 0.0, 2);

        return system_matrix.try_inverse().unwrap() * extern_matrix;
    }

    let sol_1 = solve(&p1, &p2, &p3, 100.0);
    let sol_2 = solve(&p1, &p2, &p3, 1000.0);
    let sol_3 = solve(&p1, &p2, &p3, 10000.0);
    let sol_4 = solve(&p1, &p2, &p3, 100000.0);

    let delta_1 = ((&sol_2 - &sol_1).transpose() * (&sol_2 - &sol_1))[(0, 0)];
    let delta_2 = ((&sol_3 - &sol_2).transpose() * (&sol_3 - &sol_2))[(0, 0)];
    let delta_3 = ((&sol_4 - &sol_3).transpose() * (&sol_4 - &sol_3))[(0, 0)];

    assert!(delta_2 < delta_1);
    assert!(delta_3 < delta_2);
}

#[test]
fn interface_penalty_sample_1() {
    let p1 = Position { x: 0.0, y: 0.0 };
    let p2 = Position { x: 1.0, y: 0.0 };
    let p3 = Position { x: 1.0, y: 1.0 };
    let p4 = Position { x: 0.0, y: 1.0 };

    let mut system_matrix = DMatrix::<f64>::zeros(6, 6);
    let map_11 = square_map(0, 1, 2);
    let map_12 = cross_map(0, 1, 2, 3, 4, 5);
    let map_21 = cross_map(3, 4, 5, 0, 1, 2);
    let map_22 = square_map(3, 4, 5);

    map(
        &mut system_matrix,
        &dirichlet_bilinear_penalty(&p1, &p2, &p4, 0).view((0, 0), (3, 3)).clone_owned(),
        &map_11,
    );
    map(
        &mut system_matrix,
        &dirichlet_bilinear_penalty(&p1, &p2, &p4, 2).view((0, 0), (3, 3)).clone_owned(),
        &map_11,
    );
    map(
        &mut system_matrix,
        &dirichlet_bilinear_penalty(&p3, &p4, &p2, 0).view((0, 0), (3, 3)).clone_owned(),
        &map_22,
    );
    map(
        &mut system_matrix,
        &dirichlet_bilinear_penalty(&p3, &p4, &p2, 2).view((0, 0), (3, 3)).clone_owned(),
        &map_22,
    );
    map(
        &mut system_matrix,
        &bilinear_penalty(&p1, &p2, &p4, &p1, &p2, &p4, 1).view((0, 0), (3, 3)).clone_owned(),
        &map_11,
    );
    map(
        &mut system_matrix,
        &(-bilinear_penalty(&p1, &p2, &p4, &p3, &p4, &p2, 1)).view((0, 0), (3, 3)).clone_owned(),
        &map_12,
    );
    map(
        &mut system_matrix,
        &bilinear_penalty(&p3, &p4, &p2, &p3, &p4, &p2, 1).view((0, 0), (3, 3)).clone_owned(),
        &map_22,
    );
    map(
        &mut system_matrix,
        &(-bilinear_penalty(&p3, &p4, &p2, &p1, &p2, &p4, 1)).view((0, 0), (3, 3)).clone_owned(),
        &map_21,
    );

    let mut extern_matrix = DMatrix::<f64>::zeros(6, 1);
    let map_1 = linear_map(0, 1, 2);
    let map_2 = linear_map(3, 4, 5);
    map(
        &mut extern_matrix,
        &dirichlet_linear_penalty(&p1, &p2, &p4, 0.0, 0.0, 2.0, 0).view((0, 0), (3, 1)).clone_owned(),
        &map_1,
    );
    map(
        &mut extern_matrix,
        &dirichlet_linear_penalty(&p1, &p2, &p4, 0.0, 0.0, 2.0, 2).view((0, 0), (3, 1)).clone_owned(),
        &map_1,
    );
    map(
        &mut extern_matrix,
        &dirichlet_linear_penalty(&p3, &p4, &p2, 0.0, 2.0, 0.0, 0).view((0, 0), (3, 1)).clone_owned(),
        &map_2,
    );
    map(
        &mut extern_matrix,
        &dirichlet_linear_penalty(&p3, &p4, &p2, 0.0, 2.0, 0.0, 2).view((0, 0), (3, 1)).clone_owned(),
        &map_2,
    );

    let solution = system_matrix.try_inverse().unwrap() * extern_matrix;
    let expected = DMatrix::<f64>::from_row_slice(6, 1, &vec![0.0, 0.0, 2.0, 0.0, 2.0, 0.0]);

    let error = ((&solution - &expected).transpose() * (&solution - &expected))[(0, 0)].sqrt();

    assert!(error < 1.0);
}

#[test]
fn neumann_constraint_sample_1() {
    let p1 = Position { x: 0.0, y: 0.0 };
    let p2 = Position { x: 1.0, y: 0.0 };
    let p3 = Position { x: 1.0, y: 1.0 };

    let u1 = 1.0;
    let u2 = 1.0;
    let u3 = 1.0;

    let n1 = neumann(&p1, &p2, &p3, u1, u2, u3, 0);
    let n2 = neumann(&p1, &p2, &p3, u1, u2, u3, 1);
    let n3 = neumann(&p1, &p2, &p3, u1, u2, u3, 2);
    println!("{}", n1);
    println!("{}", n2);
    println!("{}", n3);

    assert!(approx_eq(n1[(0, 0)], 0.5));
    assert!(approx_eq(n1[(1, 0)], 0.5));
    assert!(approx_eq(n1[(2, 0)], 0.0));

    assert!(approx_eq(n2[(0, 0)], -0.7071067811865476));
    assert!(approx_eq(n2[(1, 0)], 1.4142135623730951));
    assert!(approx_eq(n2[(2, 0)], 0.7071067811865476));

    assert!(approx_eq(n3[(0, 0)], -0.00000000000000005551115123125783));
    assert!(approx_eq(n3[(1, 0)], -0.5));
    assert!(approx_eq(n3[(2, 0)], -0.5));
}
