//! The proof of the intermediate sumcheck.
use vstd::prelude::*;
use crate::common::ring_arithmetic::{QuadraticExtension, RingElement};
use crate::protocol::sumcheck_utils::polynomial::Polynomial;

verus! {

/// The claims and round polynomials of the intermediate sumcheck.
pub struct IntermediateSumcheckProof {
    pub claim_over_witness: RingElement,
    pub claim_over_witness_conjugate: RingElement,
    pub norm_claim: RingElement,
    pub polys: Vec<Polynomial<QuadraticExtension>>,
}

} // verus!
