//! Verifier-side batching of the intermediate round's claims.
use vstd::prelude::*;
use crate::common::matrix::{vec_view, vec_wf};
use crate::common::ring_arithmetic::{Representation, RingElement};
use crate::protocol::commitment::inner_product;

verus! {

/// `sum_k claims[k] * combination[start_idx + k]`, and the index of the next
/// unused challenge.
pub fn batch_claims_linear(
    claims: &Vec<RingElement>,
    combination: &Vec<RingElement>,
    start_idx: usize,
) -> (r: (RingElement, usize))
    requires
        start_idx + claims@.len() <= combination@.len(),
        vec_wf(claims@),
        vec_wf(combination@),
    ensures
        r.0.wf(),
        r.0@ == inner_product(
            vec_view(claims@),
            vec_view(combination@),
            start_idx as int,
            claims@.len(),
        ),
        r.1 == start_idx + claims@.len(),
{
    let clen = combination.len();
    let mut batched = RingElement::zero(Representation::IncompleteNTT);
    let mut k: usize = 0;
    while k < claims.len()
        invariant
            k <= claims@.len(),
            clen == combination@.len(),
            start_idx + claims@.len() <= combination@.len(),
            vec_wf(claims@),
            vec_wf(combination@),
            batched.wf(),
            batched@ == inner_product(vec_view(claims@), vec_view(combination@), start_idx as int, k as nat),
        decreases claims@.len() - k,
    {
        let weighted = claims[k].mul(&combination[start_idx + k]);
        batched = batched.add(&weighted);
        k = k + 1;
    }
    (batched, start_idx + claims.len())
}

} // verus!
