use rokoko::common::config::{HALF_DEGREE, MOD_Q};
use rokoko::common::matrix::VerticallyAlignedMatrix;
use rokoko::common::ring_arithmetic::{QuadraticExtension, Representation, RingElement};
use rokoko::protocol::commitment::Prefix;
use rokoko::protocol::snark::canonical::{canon, canonicalize};
use rokoko::protocol::snark::degree::validate_claims;
use rokoko::protocol::snark::lowering::{ClaimExpr, ClaimFactor, PublicFactor, SnarkClaim, Weights};
use rokoko::protocol::snark::witness;

fn c(v: u64) -> RingElement {
    RingElement::constant(v, Representation::IncompleteNTT)
}

fn data(n: usize) -> Vec<RingElement> {
    (0..n)
        .map(|i| RingElement {
            slots: (0..HALF_DEGREE)
                .map(|j| QuadraticExtension {
                    coeffs: [((i * 7 + j * 3 + 1) as u64) % MOD_Q, ((i + 2 * j) as u64) % MOD_Q],
                })
                .collect(),
        })
        .collect()
}

fn matrix(rows: Vec<RingElement>) -> VerticallyAlignedMatrix<RingElement> {
    let height = rows.len() / 2;
    VerticallyAlignedMatrix { data: rows, width: 2, height, used_cols: 2 }
}

fn sample() -> ClaimExpr {
    let seg = Prefix { prefix: 1, length: 2 };
    ClaimExpr::segment(seg)
        .scale(&c(3))
        .mul(ClaimExpr::public(PublicFactor::selector(1, 2)))
        .mul(ClaimExpr::constant(c(2)))
        .mul(ClaimExpr::conj_segment(seg))
        .add(witness().mul(witness()).sub(ClaimExpr::constant(c(4))))
}

#[test]
fn canonical_form_keeps_the_sum() {
    let w = matrix(data(8));
    let expected = sample().sum(&w);
    let claim = canonicalize(SnarkClaim::sums_to(sample(), c(9)));
    assert_eq!(claim.value(), &c(9));
    assert_eq!(claim.expr.sum(&w), expected);
}

#[test]
fn duplicate_selectors_collapse_and_constants_fold() {
    // 3 * seg * sel * 2 * conj_seg: one selector, constant 6 first
    let seg = Prefix { prefix: 1, length: 2 };
    let e = ClaimExpr::segment(seg)
        .scale(&c(3))
        .mul(ClaimExpr::public(PublicFactor::selector(1, 2)))
        .mul(ClaimExpr::constant(c(2)))
        .mul(ClaimExpr::conj_segment(seg));
    let r = canon(e);
    // ((6 * sel) * W) * conj(W)
    let ClaimExpr::Product(left, last) = r else { panic!("not a product") };
    assert!(matches!(*last, ClaimExpr::Factor(ClaimFactor::ConjWitness)));
    let ClaimExpr::Product(left, mid) = *left else { panic!("not a product") };
    assert!(matches!(*mid, ClaimExpr::Factor(ClaimFactor::Witness)));
    let ClaimExpr::Product(first, sel) = *left else { panic!("not a product") };
    match *first {
        ClaimExpr::Constant(k) => assert_eq!(k, c(6)),
        _ => panic!("constant expected first"),
    }
    match *sel {
        ClaimExpr::Factor(ClaimFactor::Public(pf)) => {
            assert!(matches!(pf.weights, Weights::Selector { bits: 1, length: 2 }));
        }
        _ => panic!("selector expected"),
    }
}

#[test]
fn unit_constants_are_dropped() {
    assert!(matches!(canon(witness().scale(&c(1))), ClaimExpr::Factor(ClaimFactor::Witness)));
    match canon(ClaimExpr::constant(c(1))) {
        ClaimExpr::Constant(k) => assert_eq!(k, c(1)),
        _ => panic!("a lone unit stays a constant"),
    }
    match canon(ClaimExpr::constant(c(5)).mul(ClaimExpr::constant(c(7)))) {
        ClaimExpr::Constant(k) => assert_eq!(k, c(35)),
        _ => panic!("constants fold"),
    }
}

#[test]
fn sums_keep_their_shape() {
    let e = witness().scale(&c(2)).add(ClaimExpr::segment(Prefix { prefix: 0, length: 1 }));
    match canon(e) {
        ClaimExpr::Sum(a, b) => {
            assert!(matches!(*a, ClaimExpr::Product(_, _)));
            assert!(matches!(*b, ClaimExpr::Product(_, _)));
        }
        _ => panic!("sum expected"),
    }
}

#[test]
fn validation_caps_each_variable_at_degree_three() {
    let cubic = SnarkClaim::sums_to(witness().mul(witness()).mul(witness()), c(0));
    assert!(validate_claims(&vec![cubic], 3));
    let quartic = SnarkClaim::sums_to(
        witness().mul(witness()).mul(witness().mul(ClaimExpr::conj_witness())),
        c(0),
    );
    assert!(!validate_claims(&vec![quartic], 3));
    // a selector on the top variable only adds to that variable's degree
    let sel = ClaimExpr::public(PublicFactor::selector(1, 1));
    let placed = SnarkClaim::sums_to(sel.mul(witness()).mul(witness()).mul(witness()), c(0));
    assert!(!validate_claims(&vec![placed], 3));
    let sums = SnarkClaim::sums_to(witness().mul(witness()).add(witness().mul(witness()).mul(witness())), c(0));
    assert!(validate_claims(&vec![sums], 2));
    assert!(!validate_claims(&vec![], 3));
}
