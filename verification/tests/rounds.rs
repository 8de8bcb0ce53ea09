use rokoko::common::config::MOD_Q;
use rokoko::common::hash::HashWrapper;
use rokoko::common::ring_arithmetic::QuadraticExtension;
use rokoko::protocol::snark::rounds::verify_rounds;
use rokoko::protocol::sumcheck_utils::polynomial::Polynomial;

fn qe(a: u64, b: u64) -> QuadraticExtension {
    QuadraticExtension { coeffs: [a % MOD_Q, b % MOD_Q] }
}

fn poly(evals: [QuadraticExtension; 4], n: usize) -> Polynomial<QuadraticExtension> {
    Polynomial { coefficients: evals, num_coefficients: n }
}

fn zero() -> QuadraticExtension {
    qe(0, 0)
}

#[test]
fn honest_rounds_are_accepted() {
    // round 1: P1(0) + P1(1) = 3 + 4 = 7
    let p1 = poly([qe(3, 1), qe(4, 2), zero(), zero()], 2);
    let claim = qe(7, 3);
    // the verifier's challenge after absorbing P1
    let mut replay = HashWrapper::new();
    replay.update_with_quadratic_extension_slice(&p1.coefficients);
    let mut ch1 = zero();
    replay.sample_field_element_into(&mut ch1);
    let next = p1.at(&ch1);
    // round 2: P2(0) + P2(1) = P1(ch1)
    let x = qe(11, 5);
    let p2 = poly([x, next.sub(&x), zero(), zero()], 2);
    replay.update_with_quadratic_extension_slice(&p2.coefficients);
    let mut ch2 = zero();
    replay.sample_field_element_into(&mut ch2);

    let mut hw = HashWrapper::new();
    let polys = vec![p1, p2];
    let (last, points) = verify_rounds(&polys, &claim, &mut hw).unwrap();
    assert_eq!(points, vec![ch1, ch2]);
    assert_eq!(last, polys[1].at(&ch2));
    // the transcript ends where the replay does
    let mut a = zero();
    let mut b = zero();
    hw.sample_field_element_into(&mut a);
    replay.sample_field_element_into(&mut b);
    assert_eq!(a, b);
}

#[test]
fn a_wrong_round_sum_is_refused() {
    let p1 = poly([qe(3, 0), qe(4, 0), zero(), zero()], 2);
    let mut hw = HashWrapper::new();
    assert!(verify_rounds(&vec![p1], &qe(8, 0), &mut hw).is_none());
}

#[test]
fn a_nonzero_unused_entry_is_refused() {
    let p1 = poly([qe(3, 0), qe(4, 0), qe(0, 1), zero()], 2);
    let mut hw = HashWrapper::new();
    assert!(verify_rounds(&vec![p1], &qe(7, 0), &mut hw).is_none());
}

#[test]
fn a_constant_round_polynomial_counts_twice() {
    // with one entry, P(0) = P(1) = 5
    let p1 = poly([qe(5, 0), zero(), zero(), zero()], 1);
    let mut hw = HashWrapper::new();
    let (last, points) = verify_rounds(&vec![p1], &qe(10, 0), &mut hw).unwrap();
    assert_eq!(points.len(), 1);
    assert_eq!(last, qe(5, 0));
}

#[test]
fn no_rounds_keep_the_claim() {
    let mut hw = HashWrapper::new();
    let (last, points) = verify_rounds(&vec![], &qe(9, 9), &mut hw).unwrap();
    assert_eq!(last, qe(9, 9));
    assert!(points.is_empty());
}
