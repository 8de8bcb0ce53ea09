//! Evaluation points of the initial witness and the selector layers that
//! recompose its decomposition digits.
use vstd::prelude::*;
use vstd::arithmetic::power2::pow2;
use crate::common::algebra::{pconst, sconst};
use crate::common::arithmetic::{has_inverse, inv_mod, pow_mod, pow_q};
use crate::common::bits::{ilog2, log2};
use crate::common::config::{HALF_DEGREE, MOD_Q};
use crate::common::field::{fmod, mul_mod, q};
use crate::common::matrix::vec_wf;
use crate::common::ring_arithmetic::{Representation, RingElement};
use crate::common::structured_row::StructuredRow;

verus! {

/// The evaluation rows of the initial statement.
pub struct InitialEvaluationPoints {
    pub inner: Vec<StructuredRow>,
    pub outer: Vec<StructuredRow>,
    pub witness_inner: Vec<StructuredRow>,
    pub witness_claim_scale: RingElement,
}

/// `base^(2^t) mod q` for the digit base `2^base_log`.
pub open spec fn basis_power(base_log: nat, t: nat) -> int {
    pow_q(pow_q(2, base_log), pow2(t))
}

/// The scale `prod 1 / (1 + basis_power(t))` over the top `k` of `n` bits,
/// highest bit first, for the chosen inverses.
pub open spec fn selector_scale(inverses: Seq<int>, k: nat) -> int
    decreases k,
{
    if k == 0 {
        1
    } else {
        fmod(selector_scale(inverses, (k - 1) as nat) * inverses[k - 1])
    }
}

/// Layer `j` (most-significant first) of `chunk_bits` is `b * inv` for the
/// basis power `b` of its bit and an inverse `inv` of `1 + b`.
pub open spec fn selector_ok(
    base_log: nat,
    chunk_bits: nat,
    inverses: Seq<int>,
    layer: Seq<(int, int)>,
    j: int,
) -> bool {
    let b = basis_power(base_log, (chunk_bits - 1 - j) as nat);
    &&& fmod(inverses[j] * fmod(b + 1)) == 1
    &&& layer == sconst(HALF_DEGREE as nat, pconst(fmod(b * inverses[j])))
}

proof fn lemma_selector_scale_prefix(a: Seq<int>, b: Seq<int>, k: nat)
    requires
        k <= a.len(),
        k <= b.len(),
        forall|j: int| 0 <= j < k ==> a[j] == b[j],
    ensures
        selector_scale(a, k) == selector_scale(b, k),
    decreases k,
{
    if k > 0 {
        lemma_selector_scale_prefix(a, b, (k - 1) as nat);
    }
}

/// One eq layer per bit of the chunk index (most-significant first) whose
/// tensor, scaled by the returned factor, weighs chunk `i` by `base^i`: layer
/// `t` is `b / (1 + b)` for `b = base^(2^t)`, and the factor is the product of
/// the `1 / (1 + b)`. Defined unless some `1 + base^(2^t)` vanishes modulo
/// `q`, where no inverse exists.
pub fn decomposition_selector_layers_and_scale(
    decomposition_base_log: usize,
    decomposition_chunks: usize,
) -> (r: (Vec<RingElement>, RingElement))
    requires
        decomposition_chunks >= 1,
        forall|t: nat|
            t < log2(decomposition_chunks as nat) ==> #[trigger] has_inverse(
                fmod(basis_power(decomposition_base_log as nat, t) + 1),
            ),
    ensures
        r.0@.len() == log2(decomposition_chunks as nat),
        vec_wf(r.0@),
        r.1.wf(),
        exists|inverses: Seq<int>|
            #![trigger selector_scale(inverses, log2(decomposition_chunks as nat))]
            inverses.len() == log2(decomposition_chunks as nat) && r.1@ == sconst(
                HALF_DEGREE as nat,
                pconst(selector_scale(inverses, log2(decomposition_chunks as nat))),
            ) && forall|j: int|
                0 <= j < inverses.len() ==> #[trigger] selector_ok(
                    decomposition_base_log as nat,
                    log2(decomposition_chunks as nat),
                    inverses,
                    r.0@[j]@,
                    j,
                ),
{
    let base = pow_mod(2, decomposition_base_log as u64);
    let chunk_bits = ilog2(decomposition_chunks);
    let mut layers: Vec<RingElement> = Vec::with_capacity(chunk_bits);
    let mut scale: u64 = 1;
    let mut k: usize = 0;
    let ghost mut inverses: Seq<int> = Seq::empty();
    proof {
        vstd::arithmetic::div_mod::lemma_small_mod(1, q() as nat);
        vstd::arithmetic::div_mod::lemma_small_mod(base as nat, q() as nat);
    }
    while k < chunk_bits
        invariant
            k <= chunk_bits,
            chunk_bits == log2(decomposition_chunks as nat),
            chunk_bits < 64,
            base == pow_q(2, decomposition_base_log as nat),
            base < MOD_Q,
            forall|t: nat|
                t < chunk_bits ==> #[trigger] has_inverse(
                    fmod(basis_power(decomposition_base_log as nat, t) + 1),
                ),
            layers@.len() == k,
            inverses.len() == k,
            vec_wf(layers@),
            scale < MOD_Q,
            scale == selector_scale(inverses, k as nat),
            forall|j: int|
                0 <= j < k ==> #[trigger] selector_ok(
                    decomposition_base_log as nat,
                    chunk_bits as nat,
                    inverses,
                    layers@[j]@,
                    j,
                ),
        decreases chunk_bits - k,
    {
        let bit = chunk_bits - 1 - k;
        proof {
            vstd::bits::lemma_u64_pow2_no_overflow(bit as nat);
            vstd::bits::lemma_u64_shl_is_mul(1, bit as u64);
        }
        let bp = pow_mod(base, 1u64 << (bit as u64));
        proof {
            vstd::arithmetic::power::lemma_pow_mod_noop(
                pow_q(2, decomposition_base_log as nat),
                pow2(bit as nat),
                q(),
            );
            assert(bp == basis_power(decomposition_base_log as nat, bit as nat));
            assert(has_inverse(fmod(basis_power(decomposition_base_log as nat, bit as nat) + 1)));
        }
        let denom = (bp + 1) % MOD_Q;
        let inverse_scale = inv_mod(denom);
        let selector = mul_mod(bp, inverse_scale);
        scale = mul_mod(scale, inverse_scale);
        let ghost old_layers = layers@;
        layers.push(RingElement::constant(selector, Representation::IncompleteNTT));
        proof {
            let ghost old_inv = inverses;
            inverses = inverses.push(inverse_scale as int);
            vstd::arithmetic::div_mod::lemma_small_mod(selector as nat, q() as nat);
            assert(forall|j: int| 0 <= j < k ==> inverses[j] == old_inv[j]);
            lemma_selector_scale_prefix(inverses, old_inv, k as nat);
            vstd::arithmetic::mul::lemma_mul_is_commutative(denom as int, inverse_scale as int);
            assert(denom == fmod(basis_power(decomposition_base_log as nat, bit as nat) + 1));
            assert(fmod(inverses[k as int] * fmod(basis_power(decomposition_base_log as nat, bit as nat) + 1)) == 1);
            assert(layers@[k as int]@ == sconst(
                HALF_DEGREE as nat,
                pconst(fmod(basis_power(decomposition_base_log as nat, bit as nat) * inverses[k as int])),
            ));
            assert forall|j: int| 0 <= j < k + 1 implies #[trigger] selector_ok(
                decomposition_base_log as nat,
                chunk_bits as nat,
                inverses,
                layers@[j]@,
                j,
            ) by {
                if j < k {
                    assert(old_layers[j] == layers@[j]);
                    assert(selector_ok(
                        decomposition_base_log as nat,
                        chunk_bits as nat,
                        old_inv,
                        old_layers[j]@,
                        j,
                    ));
                }
            }
        }
        k = k + 1;
    }
    let c = RingElement::constant(scale, Representation::IncompleteNTT);
    proof {
        vstd::arithmetic::div_mod::lemma_small_mod(scale as nat, q() as nat);
    }
    (layers, c)
}

} // verus!
