use rokoko::common::hash::HashWrapper;
use rokoko::common::ring_arithmetic::{QuadraticExtension, Representation, RingElement};
use rokoko::protocol::snark::check_claims::{verify_canonical_claims, verify_claims};
use rokoko::protocol::snark::lowering::{ClaimExpr, InitialSumcheckProof, SnarkClaim, WitnessShape};
use rokoko::protocol::snark::{table, witness, Scalars};
use rokoko::protocol::sumcheck_utils::polynomial::Polynomial;

fn c(v: u64) -> RingElement {
    RingElement::constant(v, Representation::IncompleteNTT)
}

fn zero() -> QuadraticExtension {
    QuadraticExtension { coeffs: [0, 0] }
}

/// A ring element with different values in its slots.
fn varied(seed: u64) -> RingElement {
    let slots = (0..64u64)
        .map(|j| QuadraticExtension { coeffs: [(seed * 7 + j * 3) % 1000, (seed + j) % 11] })
        .collect();
    RingElement { slots }
}

/// `sum_j x[j] * w[j]`.
fn phi(x: &RingElement, w: &RingElement) -> QuadraticExtension {
    let mut acc = zero();
    for (a, b) in x.slots.iter().zip(w.slots.iter()) {
        acc = acc.add(&a.mul(b));
    }
    acc
}

/// The batching challenge and slot weights for one claim of value `value`.
fn replay_batching(value: &RingElement) -> (HashWrapper, RingElement, RingElement) {
    let mut replay = HashWrapper::new();
    replay.update_with_ring_element(value);
    let mut gammas = vec![c(0)];
    replay.sample_ring_element_vec_into(&mut gammas);
    let mut weights = c(0);
    replay.sample_ring_element_into(&mut weights);
    (replay, gammas[0].clone(), weights)
}

/// The honest one-variable proof of `sum_z w(z) = w0 + w1`.
fn witness_sum_proof(w0: &RingElement, w1: &RingElement) -> (SnarkClaim, InitialSumcheckProof, RingElement, HashWrapper) {
    let value = w0.add(w1);
    let (mut replay, gamma, weights) = replay_batching(&value);
    let p0 = phi(&w0.mul(&gamma), &weights);
    let p1 = phi(&w1.mul(&gamma), &weights);
    let poly = Polynomial { coefficients: [p0, p1, zero(), zero()], num_coefficients: 2 };
    replay.update_with_quadratic_extension_slice(&poly.coefficients);
    let mut f = zero();
    replay.sample_field_element_into(&mut f);
    let r = RingElement::from_quadratic_extension(&f);
    let we = w0.add(&r.mul(&w1.sub(w0)));
    let proof = InitialSumcheckProof { polys: vec![poly], witness_eval: we, conj_witness_eval: c(5) };
    (SnarkClaim { expr: witness(), value }, proof, r, replay)
}

#[test]
fn honest_witness_sum_is_accepted() {
    let (w0, w1) = (varied(1), varied(2));
    let (claim, proof, r, mut replay) = witness_sum_proof(&w0, &w1);
    let mut hw = HashWrapper::new();
    let ci = verify_claims(WitnessShape::new(2, 1), vec![claim], &proof, &mut hw).unwrap();
    assert_eq!(ci.claims, vec![proof.witness_eval.clone(), c(5).conjugate()]);
    assert!(ci.evaluation_points_outer[0].tensor_layers.is_empty());
    assert_eq!(ci.evaluation_points_inner[0].tensor_layers, vec![r.clone()]);
    assert_eq!(ci.evaluation_points_inner[1].tensor_layers, vec![r.conjugate()]);
    // the transcript has absorbed the two openings
    replay.update_with_ring_element(&proof.witness_eval);
    replay.update_with_ring_element(&proof.conj_witness_eval);
    let (mut a, mut b) = (zero(), zero());
    hw.sample_field_element_into(&mut a);
    replay.sample_field_element_into(&mut b);
    assert_eq!(a, b);
}

#[test]
fn a_wrong_opening_is_refused() {
    let (w0, w1) = (varied(3), varied(4));
    let (claim, mut proof, _, _) = witness_sum_proof(&w0, &w1);
    proof.witness_eval = proof.witness_eval.add(&c(1));
    let mut hw = HashWrapper::new();
    assert!(verify_claims(WitnessShape::new(2, 1), vec![claim], &proof, &mut hw).is_none());
}

#[test]
fn a_wrong_claimed_value_is_refused() {
    let (w0, w1) = (varied(5), varied(6));
    let (mut claim, proof, _, _) = witness_sum_proof(&w0, &w1);
    claim.value = claim.value.add(&c(1));
    let mut hw = HashWrapper::new();
    assert!(verify_claims(WitnessShape::new(2, 1), vec![claim], &proof, &mut hw).is_none());
}

#[test]
fn shapes_and_claim_lists_the_verifier_refuses() {
    let (w0, w1) = (varied(7), varied(8));
    let (claim, proof, _, _) = witness_sum_proof(&w0, &w1);
    let mut hw = HashWrapper::new();
    // not a power of two
    assert!(verify_claims(WitnessShape::new(3, 1), vec![claim], &proof, &mut hw).is_none());
    // no claim at all
    let mut hw = HashWrapper::new();
    assert!(verify_claims(WitnessShape::new(2, 1), vec![], &proof, &mut hw).is_none());
    // one round too many for one variable
    let (claim, mut proof, _, _) = witness_sum_proof(&w0, &w1);
    let again = Polynomial {
        coefficients: proof.polys[0].coefficients,
        num_coefficients: proof.polys[0].num_coefficients,
    };
    proof.polys.push(again);
    let mut hw = HashWrapper::new();
    assert!(verify_claims(WitnessShape::new(2, 1), vec![claim], &proof, &mut hw).is_none());
}

#[test]
fn honest_table_product_is_accepted() {
    // sum_z a(z) w(z) over one variable: degree two, three evaluations
    let (a0, a1) = (varied(9), varied(10));
    let (w0, w1) = (varied(11), varied(12));
    let value = a0.mul(&w0).add(&a1.mul(&w1));
    let (mut replay, gamma, weights) = replay_batching(&value);
    let a2 = c(2).mul(&a1).sub(&a0);
    let w2 = c(2).mul(&w1).sub(&w0);
    let node = |a: &RingElement, w: &RingElement| phi(&a.mul(w).mul(&gamma), &weights);
    let poly = Polynomial {
        coefficients: [node(&a0, &w0), node(&a1, &w1), node(&a2, &w2), zero()],
        num_coefficients: 3,
    };
    replay.update_with_quadratic_extension_slice(&poly.coefficients);
    let mut f = zero();
    replay.sample_field_element_into(&mut f);
    let r = RingElement::from_quadratic_extension(&f);
    let we = w0.add(&r.mul(&w1.sub(&w0)));
    let proof = InitialSumcheckProof { polys: vec![poly], witness_eval: we, conj_witness_eval: c(0) };
    let expr = ClaimExpr::from_weight(table(Scalars::Ring(vec![a0.clone(), a1.clone()]))).mul(witness());
    let claims = vec![SnarkClaim { expr, value }];
    let mut hw = HashWrapper::new();
    assert!(verify_canonical_claims(WitnessShape::new(1, 2), &claims, &proof, &mut hw).is_some());
    // the opening must match the table's extension times the witness's
    let bad = InitialSumcheckProof { polys: proof.polys, witness_eval: proof.witness_eval.add(&c(3)), conj_witness_eval: c(0) };
    let mut hw = HashWrapper::new();
    assert!(verify_canonical_claims(WitnessShape::new(1, 2), &claims, &bad, &mut hw).is_none());
}
