use rokoko::common::config::MOD_Q;
use rokoko::common::ring_arithmetic::{QuadraticExtension, Representation, RingElement};
use rokoko::common::sumcheck_element::SumcheckElement;
use rokoko::protocol::sumcheck_utils::polynomial::{
    add_poly_in_place, add_poly_into, mul_poly_into, sub_poly_in_place, Polynomial,
};

fn f(v: u64) -> QuadraticExtension {
    QuadraticExtension { coeffs: [v % MOD_Q, 0] }
}

/// The evaluation-form polynomial with values `vals` at `0, 1, ...`.
fn poly(vals: &[u64]) -> Polynomial<QuadraticExtension> {
    let mut p = Polynomial::<QuadraticExtension>::new(vals.len());
    for (i, &v) in vals.iter().enumerate() {
        p.coefficients[i] = f(v);
    }
    p
}

#[test]
fn evaluation_form_reads_nodes_and_interpolates() {
    // P(x) = x^2 + 1: values 1, 2, 5 at 0, 1, 2
    let p = poly(&[1, 2, 5]);
    assert_eq!(p.at_zero(), f(1));
    assert_eq!(p.at_one(), f(2));
    for x in 0..6u64 {
        assert_eq!(p.at(&f(x)), f(x * x + 1));
    }
    // cubic: x^3 - x + 4
    let cubic = poly(&[4, 4, 10, 28]);
    for x in 0..6u64 {
        assert_eq!(cubic.at(&f(x)), f(x * x * x - x + 4));
    }
    // linear and constant
    assert_eq!(poly(&[3, 8]).at(&f(5)), f(28));
    assert_eq!(poly(&[7]).at(&f(100)), f(7));
    assert_eq!(poly(&[7]).at_one(), f(7));
    assert_eq!(poly(&[]).at(&f(3)), f(0));
}

#[test]
fn products_and_sums_extend_their_operands() {
    // (x + 1) * (2x + 3) = 2x^2 + 5x + 3
    let a = poly(&[1, 2]);
    let b = poly(&[3, 5]);
    let mut r = Polynomial::<QuadraticExtension>::new(0);
    mul_poly_into(&mut r, &a, &b);
    assert_eq!(r.num_coefficients, 3);
    for x in 0..5u64 {
        assert_eq!(r.at(&f(x)), f(2 * x * x + 5 * x + 3));
    }
    // (2x^2 + 5x + 3) * (x + 1) is cubic
    let mut cubic = Polynomial::<QuadraticExtension>::new(0);
    mul_poly_into(&mut cubic, &r, &a);
    assert_eq!(cubic.num_coefficients, 4);
    assert_eq!(cubic.at(&f(4)), f((2 * 16 + 20 + 3) * 5));

    // (x + 1) + (x^2 + 1)
    let mut s = poly(&[1, 2]);
    add_poly_in_place(&mut s, &poly(&[1, 2, 5]));
    assert_eq!(s.num_coefficients, 3);
    for x in 0..5u64 {
        assert_eq!(s.at(&f(x)), f(x + 1 + x * x + 1));
    }
    sub_poly_in_place(&mut s, &poly(&[1, 2]));
    for x in 0..5u64 {
        assert_eq!(s.at(&f(x)), f(x * x + 1));
    }
}

#[test]
fn ring_polynomials_copy_and_add() {
    let c = |v: u64| RingElement::constant(v, Representation::IncompleteNTT);
    let mut p0 = Polynomial::<RingElement>::new(2);
    p0.coefficients[0] = c(1);
    p0.coefficients[1] = c(3);
    let mut p1 = Polynomial::<RingElement>::new(2);
    p1.coefficients[0] = c(10);
    p1.coefficients[1] = c(20);
    let mut r = Polynomial::<RingElement>::new(0);
    add_poly_into(&mut r, &p0, &p1);
    assert_eq!(r.num_coefficients, 2);
    assert_eq!(r.at(&c(2)), c(5 + 30));
    let mut copy = Polynomial::<RingElement>::new(0);
    copy.copy_from(&r);
    assert_eq!(copy.at(&c(2)), c(35));
    copy.set_zero();
    assert_eq!(copy.num_coefficients, 0);
    assert_eq!(copy.at(&c(2)), RingElement::zero(Representation::IncompleteNTT));
    assert_eq!(<RingElement as SumcheckElement>::constant(7), c(7));
}

#[test]
fn at_a_node_gives_back_the_stored_evaluation() {
    let vals = [9u64, 4, MOD_Q - 7, 1];
    for n in 1..=4usize {
        let p = poly(&vals[..n]);
        for k in 0..n {
            assert_eq!(p.at(&f(k as u64)), f(vals[k]));
        }
    }
}

#[test]
fn product_stores_the_factors_values_at_each_node() {
    let a = poly(&[5, MOD_Q - 2]);
    let b = poly(&[3, 11, 6]);
    let mut r = Polynomial::<QuadraticExtension>::new(0);
    mul_poly_into(&mut r, &a, &b);
    assert_eq!(r.num_coefficients, 4);
    for i in 0..4u64 {
        let mut expected = a.at(&f(i));
        expected.mul_assign(&b.at(&f(i)));
        assert_eq!(r.coefficients[i as usize], expected);
    }
}
