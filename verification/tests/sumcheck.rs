use rokoko::common::config::MOD_Q;
use rokoko::common::ring_arithmetic::{Representation, RingElement};
use rokoko::protocol::sumcheck::hypercube_point::HypercubePoint;
use rokoko::protocol::sumcheck::inner_product::{InnerProductSumcheck, QuadraticPolynomial};
use rokoko::protocol::sumcheck::linear::LinearSumcheck;
use rokoko::protocol::sumcheck::polynomial::{
    add_poly_in_place, add_poly_into, mul_poly_into, sub_poly_in_place, Polynomial,
};

fn c(v: u64) -> RingElement {
    RingElement::constant(v, Representation::IncompleteNTT)
}

fn table(values: &[u64]) -> Vec<RingElement> {
    values.iter().map(|&v| c(v)).collect()
}

#[test]
fn test_linear_sumcheck() {
    let data = table(&[1, 2, 3, 4, 5, 6, 7, 8]);

    let mut sc = LinearSumcheck::new(data.len(), Representation::IncompleteNTT);
    sc.from(&data);

    let r0 = c(524);
    sc.partial_evaluate(&r0);
    let r1 = c(1337);
    sc.partial_evaluate(&r1);
    let r2 = c(42);
    sc.partial_evaluate(&r2);

    assert!(sc.data.len() == 1);

    assert_eq!(
        sc.data[0],
        c((MOD_Q as i64
            + 1 * (1 - 42) * (1 - 1337) * (1 - 524)
            + 2 * 42 * (1 - 1337) * (1 - 524)
            + 3 * (1 - 42) * 1337 * (1 - 524)
            + 4 * 42 * 1337 * (1 - 524)
            + 5 * (1 - 42) * (1 - 1337) * 524
            + 6 * 42 * (1 - 1337) * 524
            + 7 * (1 - 42) * 1337 * 524
            + 8 * 42 * 1337 * 524) as u64)
    )
}

#[test]
fn test_linear_sumcheck_univariate_polynomial() {
    let data = table(&[1, 2, 3, 4, 5, 6, 7, 8]);

    let mut sc = LinearSumcheck::new(data.len(), Representation::IncompleteNTT);
    sc.from(&data);

    let mut poly = Polynomial::new(2, Representation::IncompleteNTT);
    sc.univariate_polynomial_into(&mut poly);

    // poly 1 + (5 - 1) * x + 2 + (6 - 2) * x + 3 + (7 - 3) * x + 4 + (8 - 4) * x
    assert_eq!(poly.coefficients[0], c(1 + 2 + 3 + 4));
    assert_eq!(poly.coefficients[1], c((5 - 1) + (6 - 2) + (7 - 3) + (8 - 4)));
}

#[test]
fn test_inner_product_sumcheck() {
    let data_0 = table(&[1, 2, 3, 4, 5, 6, 7, 8]);
    let data_1 = table(&[9, 10, 11, 12, 13, 14, 15, 16]);

    let mut sumcheck_0 = LinearSumcheck::new(data_0.len(), Representation::IncompleteNTT);
    sumcheck_0.from(&data_0);
    let mut sumcheck_1 = LinearSumcheck::new(data_1.len(), Representation::IncompleteNTT);
    sumcheck_1.from(&data_1);

    let mut univariate_poly = QuadraticPolynomial::new(Representation::IncompleteNTT);
    InnerProductSumcheck::new(&sumcheck_0, &sumcheck_1).univariate_polynomial_into(&mut univariate_poly);

    assert_eq!(
        univariate_poly.at_zero().add(&univariate_poly.at_one()),
        c(1 * 9 + 2 * 10 + 3 * 11 + 4 * 12 + 5 * 13 + 6 * 14 + 7 * 15 + 8 * 16)
    );

    let r0 = c(524);
    let claim = univariate_poly.at(&r0);
    sumcheck_0.partial_evaluate(&r0);
    sumcheck_1.partial_evaluate(&r0);
    InnerProductSumcheck::new(&sumcheck_0, &sumcheck_1).univariate_polynomial_into(&mut univariate_poly);
    assert_eq!(univariate_poly.at_zero().add(&univariate_poly.at_one()), claim);

    let r1 = c(1337);
    let claim = univariate_poly.at(&r1);
    sumcheck_0.partial_evaluate(&r1);
    sumcheck_1.partial_evaluate(&r1);
    InnerProductSumcheck::new(&sumcheck_0, &sumcheck_1).univariate_polynomial_into(&mut univariate_poly);
    assert_eq!(univariate_poly.at_zero().add(&univariate_poly.at_one()), claim);

    let r2 = c(42);
    let claim = univariate_poly.at(&r2);
    sumcheck_0.partial_evaluate(&r2);
    sumcheck_1.partial_evaluate(&r2);

    assert_eq!(sumcheck_0.final_evaluations().mul(sumcheck_1.final_evaluations()), claim);

    assert_eq!(
        sumcheck_0.final_evaluations(),
        &c((MOD_Q as i64
            + (1 - 524) * (1 - 1337) * (1 - 42) * 1
            + (1 - 524) * (1 - 1337) * (42) * 2
            + (1 - 524) * (1337) * (1 - 42) * 3
            + (1 - 524) * (1337) * (42) * 4
            + (524) * (1 - 1337) * (1 - 42) * 5
            + (524) * (1 - 1337) * (42) * 6
            + (524) * (1337) * (1 - 42) * 7
            + (524) * (1337) * (42) * 8) as u64)
    );

    assert_eq!(
        sumcheck_1.final_evaluations(),
        &c((MOD_Q as i64
            + (1 - 524) * (1 - 1337) * (1 - 42) * 9
            + (1 - 524) * (1 - 1337) * (42) * 10
            + (1 - 524) * (1337) * (1 - 42) * 11
            + (1 - 524) * (1337) * (42) * 12
            + (524) * (1 - 1337) * (1 - 42) * 13
            + (524) * (1 - 1337) * (42) * 14
            + (524) * (1337) * (1 - 42) * 15
            + (524) * (1337) * (42) * 16) as u64)
    );

    assert_eq!(
        claim,
        c((MOD_Q as i64
            + ((1 - 524) * (1 - 1337) * (1 - 42) * 1
                + (1 - 524) * (1 - 1337) * (42) * 2
                + (1 - 524) * (1337) * (1 - 42) * 3
                + (1 - 524) * (1337) * (42) * 4
                + (524) * (1 - 1337) * (1 - 42) * 5
                + (524) * (1 - 1337) * (42) * 6
                + (524) * (1337) * (1 - 42) * 7
                + (524) * (1337) * (42) * 8)
                * ((1 - 524) * (1 - 1337) * (1 - 42) * 9
                    + (1 - 524) * (1 - 1337) * (42) * 10
                    + (1 - 524) * (1337) * (1 - 42) * 11
                    + (1 - 524) * (1337) * (42) * 12
                    + (524) * (1 - 1337) * (1 - 42) * 13
                    + (524) * (1 - 1337) * (42) * 14
                    + (524) * (1337) * (1 - 42) * 15
                    + (524) * (1337) * (42) * 16)) as u64)
    );
}

#[test]
fn linear_sumcheck_index_and_variable_count() {
    let data = table(&[10, 20, 30, 40]);
    let mut sc = LinearSumcheck::new(data.len(), Representation::IncompleteNTT);
    sc.from(&data);
    assert_eq!(sc.get_variable_count(), 2);
    assert_eq!(sc.index(HypercubePoint::new(3)), &c(40));
    sc.partial_evaluate(&c(0));
    assert_eq!(sc.get_variable_count(), 1);
    assert_eq!(sc.data, table(&[10, 20]));
}

#[test]
fn hypercube_point_moves() {
    let p = HypercubePoint::new(0b1011);
    assert_eq!(p.moved(4).coordinates, 0b1111);
    assert_eq!(p.shifted(1).coordinates, 0b101);
    assert_eq!(p.masked(0b0011).coordinates, 0b0011);
}

#[test]
fn monomial_polynomial_evaluation_and_arithmetic() {
    // p(x) = 1 + 2x + 3x^2
    let mut p = Polynomial::new(3, Representation::IncompleteNTT);
    p.coefficients[0] = c(1);
    p.coefficients[1] = c(2);
    p.coefficients[2] = c(3);
    assert_eq!(p.at_zero(), c(1));
    assert_eq!(p.at_one(), c(6));
    assert_eq!(p.at(&c(2)), c(1 + 4 + 12));

    // q(x) = 5 + x
    let mut q = Polynomial::new(2, Representation::IncompleteNTT);
    q.coefficients[0] = c(5);
    q.coefficients[1] = c(1);

    // p * q = 5 + 11x + 17x^2 + 3x^3, accumulated into a zero polynomial
    let mut prod = Polynomial::new(0, Representation::IncompleteNTT);
    mul_poly_into(&mut prod, &p, &q);
    assert_eq!(prod.num_coefficients, 4);
    assert_eq!(prod.at(&c(3)), c((1 + 6 + 27) * (5 + 3)));

    let mut sum = Polynomial::new(0, Representation::IncompleteNTT);
    add_poly_in_place(&mut sum, &p);
    add_poly_in_place(&mut sum, &q);
    assert_eq!(sum.at(&c(2)), c(17 + 7));
    sub_poly_in_place(&mut sum, &q);
    assert_eq!(sum.at(&c(2)), c(17));

    p.set_zero();
    assert_eq!(p.at(&c(9)), c(0));
}

#[test]
fn products_and_sums_are_stored_not_accumulated() {
    // result holds the constant 1 before; 1 * 1 must store 1
    let mut one = Polynomial::new(1, Representation::IncompleteNTT);
    one.coefficients[0] = c(1);
    let mut result = Polynomial::new(1, Representation::IncompleteNTT);
    result.coefficients[0] = c(1);
    result.coefficients[3] = c(9);
    mul_poly_into(&mut result, &one, &one);
    assert_eq!(result.num_coefficients, 1);
    assert_eq!(result.coefficients[0], c(1));
    assert_eq!(result.coefficients[3], c(0));

    // (2 + 3x) + 5: the sum is zero-padded, whatever result held
    let mut p = Polynomial::new(2, Representation::IncompleteNTT);
    p.coefficients[0] = c(2);
    p.coefficients[1] = c(3);
    let mut q = Polynomial::new(1, Representation::IncompleteNTT);
    q.coefficients[0] = c(5);
    q.coefficients[1] = c(100); // inactive
    let mut sum = Polynomial::new(0, Representation::IncompleteNTT);
    sum.coefficients[2] = c(7);
    add_poly_into(&mut sum, &q, &p);
    assert_eq!(sum.num_coefficients, 2);
    assert_eq!(sum.coefficients[0], c(7));
    assert_eq!(sum.coefficients[1], c(3));
    assert_eq!(sum.coefficients[2], c(0));
    assert_eq!(sum.at(&c(2)), c(13));
}
