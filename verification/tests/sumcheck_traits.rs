use rokoko::common::ring_arithmetic::{Representation, RingElement};
use rokoko::protocol::sumcheck::common::{HighOrderSumcheckData, Polynomial, SumcheckBaseData};
use rokoko::protocol::sumcheck::inner_product::{InnerProductSumcheck, QuadraticPolynomial};
use rokoko::protocol::sumcheck::linear::LinearSumcheck;

fn c(v: u64) -> RingElement {
    RingElement::constant(v, Representation::IncompleteNTT)
}

fn loaded(values: &[u64]) -> LinearSumcheck {
    let data: Vec<RingElement> = values.iter().map(|&v| c(v)).collect();
    let mut sc = LinearSumcheck::new(data.len(), Representation::IncompleteNTT);
    sc.from(&data);
    sc
}

/// The round claim `P(0) + P(1)`, through the generic interface.
fn round_claim<P: Polynomial>(p: &P) -> RingElement {
    p.at_zero().add(&p.at_one())
}

/// Folds every variable at the given challenges, through the generic interface.
fn fold_all<S: SumcheckBaseData>(s: &mut S, challenges: &[RingElement]) -> RingElement {
    assert_eq!(s.get_variable_count(), challenges.len());
    for r in challenges {
        s.partial_evaluate(r);
    }
    s.final_evaluations().duplicate()
}

#[test]
fn linear_sumcheck_through_the_shared_interfaces() {
    let mut sc = loaded(&[1, 2, 3, 4]);
    let mut poly = rokoko::protocol::sumcheck::polynomial::Polynomial::new(2, Representation::IncompleteNTT);
    HighOrderSumcheckData::<_, RingElement>::univariate_polynomial_into(&sc, &mut poly);
    assert_eq!(round_claim(&poly), c(10));
    // folding at x = 0 then 0 keeps the first entry; at 1 then 1 the last
    assert_eq!(fold_all(&mut sc, &[c(0), c(0)]), c(1));
    let mut sc = loaded(&[1, 2, 3, 4]);
    assert_eq!(fold_all(&mut sc, &[c(1), c(1)]), c(4));
}

#[test]
fn inner_product_round_polynomial_through_the_shared_interfaces() {
    let a = loaded(&[1, 2]);
    let b = loaded(&[3, 5]);
    let ip = InnerProductSumcheck::new(&a, &b);
    let mut q = QuadraticPolynomial::new(Representation::IncompleteNTT);
    HighOrderSumcheckData::<_, (RingElement, RingElement)>::univariate_polynomial_into(&ip, &mut q);
    // 1 * 3 + 2 * 5
    assert_eq!(round_claim(&q), c(13));
}
