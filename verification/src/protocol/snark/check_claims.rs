//! The verifier of the initial claims: it binds the claim values, batches the
//! claims with transcript challenges, replays the sumcheck rounds, checks the
//! last round against the claims evaluated at the final point, and hands the
//! witness openings on to the commitment chain.
use vstd::prelude::*;
use vstd::arithmetic::power2::pow2;
use crate::common::algebra::{padd, pmul, preduced, sadd, sconst, smul, ssub, swf};
use crate::common::bits::{ilog2, is_power_of_two, is_pow2, lemma_log2_mono, lemma_pow2_log2, log2, pow2_usize};
use crate::common::config::HALF_DEGREE;
use crate::common::hash::{element_bytes, ring_challenge, HashWrapper};
use crate::common::matrix::{vec_view, vec_wf};
use crate::common::ring_arithmetic::{sconj, QuadraticExtension, Representation, RingElement};
use crate::common::structured_row::StructuredRow;
use crate::protocol::snark::canonical::{canon_spec, canon_view, canonicalize, is_canonical};
use crate::protocol::snark::consts_ok;
use crate::protocol::snark::degree::{degree_at, degree_ok, fits_cube, validate_claims};
use crate::protocol::snark::eval_public_at;
use crate::protocol::snark::eq_weighted;
use crate::protocol::snark::eq_weighted_sum;
use crate::protocol::snark::lowering::{
    ChainInputs, ClaimExpr, ClaimFactor, InitialSumcheckProof, PublicFactor, SnarkClaim, WitnessShape,
};
use crate::protocol::snark::rounds::{absorbed_rounds, round_challenge, round_claim, round_ok, verify_rounds};
use crate::protocol::snark::semantics::{cube_sum, expr_ok, public_ok, public_val, rzero, witness_ok};
use crate::protocol::snark::tensor::{qe_all_wf, qe_seq};

verus! {

/// The multilinear extension of a public weight at the point `z` (one
/// coordinate per variable, most-significant first):
/// `sum_i eq(z, i) * weight(i)` over the cube.
pub open spec fn public_mle(pf: PublicFactor, z: Seq<(int, int)>, total: nat) -> Seq<(int, int)> {
    eq_weighted(z, Seq::new(pow2(total), |i: int| public_val(pf, i, total)), pow2(total))
}

/// The value the verifier gives an expression at the final point `z`: the
/// witness leaves take the claimed openings `we` and `ce`, public leaves
/// their multilinear extensions, constants themselves, and products, sums
/// and differences combine these values.
pub open spec fn final_value(
    e: ClaimExpr,
    we: Seq<(int, int)>,
    ce: Seq<(int, int)>,
    z: Seq<(int, int)>,
    total: nat,
) -> Seq<(int, int)>
    decreases e,
{
    match e {
        ClaimExpr::Factor(ClaimFactor::Witness) => we,
        ClaimExpr::Factor(ClaimFactor::ConjWitness) => ce,
        ClaimExpr::Factor(ClaimFactor::Public(pf)) => public_mle(pf, z, total),
        ClaimExpr::Factor(_) => rzero(),
        ClaimExpr::Constant(c) => c@,
        ClaimExpr::Scale(c, x) => smul(final_value(*x, we, ce, z, total), c@),
        ClaimExpr::Product(a, b) => smul(
            final_value(*a, we, ce, z, total),
            final_value(*b, we, ce, z, total),
        ),
        ClaimExpr::Sum(a, b) => sadd(
            final_value(*a, we, ce, z, total),
            final_value(*b, we, ce, z, total),
        ),
        ClaimExpr::Diff(a, b) => ssub(
            final_value(*a, we, ce, z, total),
            final_value(*b, we, ce, z, total),
        ),
    }
}

/// `sum_{i < n} values[i] * gammas[i]`.
pub open spec fn batched(values: Seq<Seq<(int, int)>>, gammas: Seq<Seq<(int, int)>>, n: nat) -> Seq<
    (int, int),
>
    decreases n,
{
    if n == 0 {
        rzero()
    } else {
        sadd(batched(values, gammas, (n - 1) as nat), smul(values[n - 1], gammas[n - 1]))
    }
}

/// The extension element of a ring element under the slot weights `w`:
/// `sum_{j < n} x[j] * w[j]`.
pub open spec fn field_image(x: Seq<(int, int)>, w: Seq<(int, int)>, n: nat) -> (int, int)
    decreases n,
{
    if n == 0 {
        (0, 0)
    } else {
        padd(field_image(x, w, (n - 1) as nat), pmul(x[n - 1], w[n - 1]))
    }
}

/// The transcript bytes after absorbing the first `n` claim values onto `a0`.
pub open spec fn absorbed_values(a0: Seq<u8>, values: Seq<Seq<(int, int)>>, n: nat) -> Seq<u8>
    decreases n,
{
    if n == 0 {
        a0
    } else {
        absorbed_values(a0, values, (n - 1) as nat) + element_bytes(values[n - 1], HALF_DEGREE as nat)
    }
}

/// The claimed values.
pub open spec fn claim_values(claims: Seq<SnarkClaim>) -> Seq<Seq<(int, int)>> {
    Seq::new(claims.len(), |i: int| claims[i].value@)
}

/// The transcript bytes once the claim values are bound.
pub open spec fn bound_transcript(a0: Seq<u8>, claims: Seq<SnarkClaim>) -> Seq<u8> {
    absorbed_values(a0, claim_values(claims), claims.len())
}

/// The batching challenges: ring challenge `k` drawn after the values.
pub open spec fn batching_challenges(a0: Seq<u8>, claims: Seq<SnarkClaim>) -> Seq<Seq<(int, int)>> {
    Seq::new(
        claims.len(),
        |k: int| ring_challenge(bound_transcript(a0, claims), (HALF_DEGREE * k) as nat),
    )
}

/// The slot weights taking ring values to the extension field, drawn after
/// the batching challenges.
pub open spec fn field_weights(a0: Seq<u8>, claims: Seq<SnarkClaim>) -> Seq<(int, int)> {
    ring_challenge(bound_transcript(a0, claims), (HALF_DEGREE * claims.len()) as nat)
}

/// The batched claim over the field the rounds start from.
pub open spec fn initial_field_claim(a0: Seq<u8>, claims: Seq<SnarkClaim>) -> (int, int) {
    field_image(
        batched(claim_values(claims), batching_challenges(a0, claims), claims.len()),
        field_weights(a0, claims),
        HALF_DEGREE as nat,
    )
}

/// The final point, most-significant variable first: round `t` binds
/// variable `total - 1 - t`.
pub open spec fn final_point(
    a0: Seq<u8>,
    claims: Seq<SnarkClaim>,
    proof: InitialSumcheckProof,
    total: nat,
) -> Seq<(int, int)> {
    Seq::new(
        total,
        |k: int| round_challenge(bound_transcript(a0, claims), proof.polys@, (total - 1 - k) as nat),
    )
}

/// What the last round must reach: the batched final values of the claims
/// over the field.
pub open spec fn final_field_claim(
    a0: Seq<u8>,
    claims: Seq<SnarkClaim>,
    proof: InitialSumcheckProof,
    total: nat,
) -> (int, int) {
    let z = final_point(a0, claims, proof, total);
    let values = Seq::new(
        claims.len(),
        |i: int| final_value(claims[i].expr, proof.witness_eval@, proof.conj_witness_eval@, z, total),
    );
    field_image(
        batched(values, batching_challenges(a0, claims), claims.len()),
        field_weights(a0, claims),
        HALF_DEGREE as nat,
    )
}

/// The structural check of the claims: at least one, and no variable of
/// degree above three.
pub open spec fn claims_valid(claims: Seq<SnarkClaim>, total: nat) -> bool {
    claims.len() > 0 && forall|i: int, v: int|
        0 <= i < claims.len() && 0 <= v < total ==> #[trigger] degree_at(claims[i].expr, total, v) <= 3
}

/// The verifier accepts: the witness has a power-of-two size, the claims are
/// valid, there is one round per variable, every round passes, and the last
/// round reaches the claims' final values.
pub open spec fn claims_accepted(
    shape: WitnessShape,
    claims: Seq<SnarkClaim>,
    proof: InitialSumcheckProof,
    a0: Seq<u8>,
) -> bool {
    let n = (shape.height * shape.width) as nat;
    let total = log2(n);
    let a1 = bound_transcript(a0, claims);
    let c0 = initial_field_claim(a0, claims);
    &&& is_pow2(n)
    &&& claims_valid(claims, total)
    &&& proof.polys@.len() == total
    &&& forall|t: nat| t < total ==> #[trigger] round_ok(c0, a1, proof.polys@, t)
    &&& round_claim(c0, a1, proof.polys@, total) == final_field_claim(a0, claims, proof, total)
}

/// The ring points of `z[lo..hi]`, as eq-tensor layers.
pub open spec fn point_layers(z: Seq<(int, int)>, lo: int, hi: int) -> Seq<Seq<(int, int)>> {
    Seq::new((hi - lo) as nat, |k: int| sconst(HALF_DEGREE as nat, z[lo + k]))
}

/// The conjugated ring points of `z[lo..hi]`.
pub open spec fn conj_point_layers(z: Seq<(int, int)>, lo: int, hi: int) -> Seq<Seq<(int, int)>> {
    Seq::new((hi - lo) as nat, |k: int| sconj(sconst(HALF_DEGREE as nat, z[lo + k])))
}

/// The chain inputs for the final point `z`: the first `wbits` coordinates
/// address the columns (outer rows), the rest the rows (inner rows), each
/// with its conjugate; the claims are the witness opening and the conjugate
/// of the conjugated opening.
pub open spec fn chain_inputs_ok(
    ci: ChainInputs,
    z: Seq<(int, int)>,
    wbits: int,
    total: int,
    we: Seq<(int, int)>,
    ce: Seq<(int, int)>,
) -> bool {
    &&& ci.evaluation_points_outer@.len() == 2
    &&& ci.evaluation_points_inner@.len() == 2
    &&& vec_view(ci.evaluation_points_outer@[0].tensor_layers@) == point_layers(z, 0, wbits)
    &&& vec_view(ci.evaluation_points_outer@[1].tensor_layers@) == conj_point_layers(z, 0, wbits)
    &&& vec_view(ci.evaluation_points_inner@[0].tensor_layers@) == point_layers(z, wbits, total)
    &&& vec_view(ci.evaluation_points_inner@[1].tensor_layers@) == conj_point_layers(z, wbits, total)
    &&& ci.claims@.len() == 2
    &&& ci.claims@[0]@ == we
    &&& ci.claims@[1]@ == sconj(ce)
}

/// The multilinear extension of a public weight at `z`, summed over the cube.
fn public_mle_at(pf: &PublicFactor, z: &Vec<QuadraticExtension>, total: usize) -> (r: RingElement)
    requires
        public_ok(*pf, total as nat),
        qe_all_wf(z@),
        z@.len() == total,
        pow2(total as nat) <= usize::MAX,
    ensures
        r.wf(),
        r@ == public_mle(*pf, qe_seq(z@), total as nat),
{
    let n = pow2_usize(total);
    let mut values: Vec<RingElement> = Vec::with_capacity(n);
    let mut i: usize = 0;
    while i < n
        invariant
            i <= n,
            n == pow2(total as nat),
            n <= usize::MAX,
            public_ok(*pf, total as nat),
            values@.len() == i,
            forall|k: int|
                0 <= k < i ==> (#[trigger] values@[k]).wf() && values@[k]@ == public_val(
                    *pf,
                    k,
                    total as nat,
                ),
        decreases n - i,
    {
        values.push(eval_public_at(pf, i, total));
        i = i + 1;
    }
    proof {
        assert(vec_view(values@) =~= Seq::new(pow2(total as nat), |k: int| public_val(*pf, k, total as nat)));
    }
    eq_weighted_sum(z.as_slice(), values.as_slice())
}

/// [`final_value`] of a canonical expression.
fn final_eval(
    e: &ClaimExpr,
    we: &RingElement,
    ce: &RingElement,
    z: &Vec<QuadraticExtension>,
    total: usize,
) -> (r: RingElement)
    requires
        is_canonical(*e),
        expr_ok(*e, total as nat),
        we.wf(),
        ce.wf(),
        qe_all_wf(z@),
        z@.len() == total,
        pow2(total as nat) <= usize::MAX,
    ensures
        r.wf(),
        r@ == final_value(*e, we@, ce@, qe_seq(z@), total as nat),
    decreases e,
{
    match e {
        ClaimExpr::Factor(ClaimFactor::Witness) => we.duplicate(),
        ClaimExpr::Factor(ClaimFactor::ConjWitness) => ce.duplicate(),
        ClaimExpr::Factor(ClaimFactor::Public(pf)) => public_mle_at(pf, z, total),
        ClaimExpr::Factor(_) => {
            proof {
                assert(false);
            }
            RingElement::zero(Representation::IncompleteNTT)
        },
        ClaimExpr::Constant(c) => c.duplicate(),
        ClaimExpr::Scale(c, x) => {
            proof {
                assert(false);
            }
            RingElement::zero(Representation::IncompleteNTT)
        },
        ClaimExpr::Product(a, b) => {
            let v = final_eval(a, we, ce, z, total);
            v.mul(&final_eval(b, we, ce, z, total))
        },
        ClaimExpr::Sum(a, b) => {
            let v = final_eval(a, we, ce, z, total);
            v.add(&final_eval(b, we, ce, z, total))
        },
        ClaimExpr::Diff(a, b) => {
            let v = final_eval(a, we, ce, z, total);
            v.sub(&final_eval(b, we, ce, z, total))
        },
    }
}

/// `sum_k values[k] * gammas[k]`.
fn batch(values: &Vec<RingElement>, gammas: &Vec<RingElement>) -> (r: RingElement)
    requires
        values@.len() == gammas@.len(),
        vec_wf(values@),
        vec_wf(gammas@),
    ensures
        r.wf(),
        r@ == batched(vec_view(values@), vec_view(gammas@), values@.len()),
{
    let mut acc = RingElement::zero(Representation::IncompleteNTT);
    let mut k: usize = 0;
    while k < values.len()
        invariant
            k <= values@.len(),
            values@.len() == gammas@.len(),
            vec_wf(values@),
            vec_wf(gammas@),
            acc.wf(),
            acc@ == batched(vec_view(values@), vec_view(gammas@), k as nat),
        decreases values@.len() - k,
    {
        let t = values[k].mul(&gammas[k]);
        acc = acc.add(&t);
        k = k + 1;
    }
    acc
}

/// [`field_image`] over all slots.
fn to_field(x: &RingElement, w: &RingElement) -> (r: QuadraticExtension)
    requires
        x.wf(),
        w.wf(),
    ensures
        r.wf(),
        r@ == field_image(x@, w@, HALF_DEGREE as nat),
{
    let mut acc = QuadraticExtension::zero();
    let mut j: usize = 0;
    while j < HALF_DEGREE
        invariant
            j <= HALF_DEGREE,
            x.wf(),
            w.wf(),
            acc.wf(),
            acc@ == field_image(x@, w@, j as nat),
        decreases HALF_DEGREE - j,
    {
        proof {
            assert(preduced(x@[j as int]) && preduced(w@[j as int]));
            assert(x.slots@[j as int]@ == x@[j as int]);
            assert(w.slots@[j as int]@ == w@[j as int]);
        }
        let t = x.slots[j].mul(&w.slots[j]);
        acc = acc.add(&t);
        j = j + 1;
    }
    acc
}

/// The eq-tensor rows of the points `z[lo..hi]` and of their conjugates.
fn point_rows(z: &Vec<QuadraticExtension>, lo: usize, hi: usize) -> (r: (StructuredRow, StructuredRow))
    requires
        lo <= hi <= z@.len(),
        qe_all_wf(z@),
    ensures
        vec_wf(r.0.tensor_layers@),
        vec_wf(r.1.tensor_layers@),
        vec_view(r.0.tensor_layers@) == point_layers(qe_seq(z@), lo as int, hi as int),
        vec_view(r.1.tensor_layers@) == conj_point_layers(qe_seq(z@), lo as int, hi as int),
{
    let mut plain: Vec<RingElement> = Vec::new();
    let mut conj: Vec<RingElement> = Vec::new();
    let mut k: usize = lo;
    while k < hi
        invariant
            lo <= k <= hi,
            hi <= z@.len(),
            qe_all_wf(z@),
            plain@.len() == k - lo,
            conj@.len() == k - lo,
            forall|t: int|
                0 <= t < k - lo ==> (#[trigger] plain@[t]).wf() && plain@[t]@ == sconst(
                    HALF_DEGREE as nat,
                    z@[lo + t]@,
                ),
            forall|t: int|
                0 <= t < k - lo ==> (#[trigger] conj@[t]).wf() && conj@[t]@ == sconj(
                    sconst(HALF_DEGREE as nat, z@[lo + t]@),
                ),
        decreases hi - k,
    {
        let e = RingElement::from_quadratic_extension(&z[k]);
        let c = e.conjugate();
        plain.push(e);
        conj.push(c);
        k = k + 1;
    }
    proof {
        assert(vec_view(plain@) =~= point_layers(qe_seq(z@), lo as int, hi as int));
        assert(vec_view(conj@) =~= conj_point_layers(qe_seq(z@), lo as int, hi as int));
    }
    (StructuredRow { tensor_layers: plain }, StructuredRow { tensor_layers: conj })
}

/// The verifier's side of the initial claims, on claims already in canonical
/// form: binds the claim values, draws the batching challenges and the slot
/// weights, replays the rounds from the batched claim, checks that the last
/// round reaches the batched final values of the claims, absorbs the two
/// openings, and returns the chain inputs at the final point. `None` exactly
/// where a check fails.
pub fn verify_canonical_claims(
    shape: WitnessShape,
    claims: &Vec<SnarkClaim>,
    proof: &InitialSumcheckProof,
    hash_wrapper: &mut HashWrapper,
) -> (r: Option<ChainInputs>)
    requires
        shape.height * shape.width <= usize::MAX,
        HALF_DEGREE * (claims@.len() + 1) < u64::MAX,
        forall|i: int|
            0 <= i < claims@.len() ==> is_canonical(#[trigger] claims@[i].expr) && expr_ok(
                claims@[i].expr,
                log2((shape.height * shape.width) as nat),
            ) && degree_ok(claims@[i].expr, log2((shape.height * shape.width) as nat))
                && claims@[i].value.wf(),
        proof.witness_eval.wf(),
        proof.conj_witness_eval.wf(),
        forall|t: int| 0 <= t < proof.polys@.len() ==> (#[trigger] proof.polys@[t]).wf(),
    ensures
        r is Some <==> claims_accepted(shape, claims@, *proof, old(hash_wrapper)@.absorbed),
        r matches Some(ci) ==> {
            let total = log2((shape.height * shape.width) as nat);
            let a1 = bound_transcript(old(hash_wrapper)@.absorbed, claims@);
            &&& chain_inputs_ok(
                ci,
                final_point(old(hash_wrapper)@.absorbed, claims@, *proof, total),
                log2(shape.width as nat) as int,
                total as int,
                proof.witness_eval@,
                proof.conj_witness_eval@,
            )
            &&& final(hash_wrapper)@.absorbed == absorbed_rounds(a1, proof.polys@, total)
                + element_bytes(proof.witness_eval@, HALF_DEGREE as nat) + element_bytes(
                proof.conj_witness_eval@,
                HALF_DEGREE as nat,
            )
            &&& final(hash_wrapper)@.squeezed == 0
        },
{
    let ghost a0 = hash_wrapper@.absorbed;
    let n = shape.height * shape.width;
    if !is_power_of_two(n) {
        return None;
    }
    let total = ilog2(n);
    proof {
        lemma_pow2_log2(n as nat);
    }
    if !validate_claims(claims, total) {
        return None;
    }
    if proof.polys.len() != total {
        return None;
    }
    let m = claims.len();
    let ghost vals = claim_values(claims@);
    proof {
        assert forall|i: int| 0 <= i < claims@.len() implies (#[trigger] claims@[i]).value.wf() by {
            assert(is_canonical(claims@[i].expr));
        }
        assert(shape.width > 0) by (nonlinear_arith)
            requires
                n == shape.height * shape.width,
                n > 0,
        ;
    }
    let mut k: usize = 0;
    while k < m
        invariant
            k <= m,
            m == claims@.len(),
            m > 0,
            vals == claim_values(claims@),
            forall|i: int| 0 <= i < claims@.len() ==> (#[trigger] claims@[i]).value.wf(),
            hash_wrapper@.absorbed == absorbed_values(a0, vals, k as nat),
            k > 0 ==> hash_wrapper@.squeezed == 0,
        decreases m - k,
    {
        hash_wrapper.update_with_ring_element(&claims[k].value);
        k = k + 1;
    }
    let ghost a1 = hash_wrapper@.absorbed;
    proof {
        assert(a1 == bound_transcript(a0, claims@));
    }
    let mut gammas: Vec<RingElement> = Vec::new();
    let mut values: Vec<RingElement> = Vec::new();
    let mut k: usize = 0;
    while k < m
        invariant
            k <= m,
            m == claims@.len(),
            vals == claim_values(claims@),
            forall|i: int| 0 <= i < claims@.len() ==> (#[trigger] claims@[i]).value.wf(),
            gammas@.len() == k,
            values@.len() == k,
            vec_wf(values@),
            forall|t: int| 0 <= t < k ==> #[trigger] values@[t]@ == vals[t],
        decreases m - k,
    {
        gammas.push(RingElement::zero(Representation::IncompleteNTT));
        values.push(claims[k].value.duplicate());
        k = k + 1;
    }
    hash_wrapper.sample_ring_element_vec_into(&mut gammas);
    let mut weights = RingElement::zero(Representation::IncompleteNTT);
    hash_wrapper.sample_ring_element_into(&mut weights);
    proof {
        assert(vec_view(values@) =~= vals);
        assert(vec_view(gammas@) =~= batching_challenges(a0, claims@));
        assert(weights@ == field_weights(a0, claims@));
    }
    let c0 = to_field(&batch(&values, &gammas), &weights);
    let ghost c0v = initial_field_claim(a0, claims@);
    assert(c0@ == c0v);
    let rounds = verify_rounds(&proof.polys, &c0, hash_wrapper);
    let (fin, points) = match rounds {
        None => {
            return None;
        },
        Some(out) => out,
    };
    let mut z: Vec<QuadraticExtension> = Vec::new();
    let mut k: usize = 0;
    while k < total
        invariant
            k <= total,
            points@.len() == total,
            forall|t: int| 0 <= t < total ==> (#[trigger] points@[t]).wf() && points@[t]@
                == round_challenge(a1, proof.polys@, t as nat),
            z@.len() == k,
            forall|t: int| 0 <= t < k ==> (#[trigger] z@[t]).wf() && z@[t]@ == round_challenge(
                a1,
                proof.polys@,
                (total - 1 - t) as nat,
            ),
        decreases total - k,
    {
        z.push(points[total - 1 - k]);
        k = k + 1;
    }
    let ghost zv = final_point(a0, claims@, *proof, total as nat);
    proof {
        assert(qe_seq(z@) =~= zv);
        assert(pow2(total as nat) <= usize::MAX);
    }
    let mut finals: Vec<RingElement> = Vec::new();
    let mut i: usize = 0;
    while i < m
        invariant
            i <= m,
            m == claims@.len(),
            total == log2(n as nat),
            n == shape.height * shape.width,
            pow2(total as nat) <= usize::MAX,
            qe_all_wf(z@),
            z@.len() == total,
            qe_seq(z@) == zv,
            proof.witness_eval.wf(),
            proof.conj_witness_eval.wf(),
            forall|j: int|
                0 <= j < claims@.len() ==> is_canonical(#[trigger] claims@[j].expr) && expr_ok(
                    claims@[j].expr,
                    log2((shape.height * shape.width) as nat),
                ),
            finals@.len() == i,
            forall|t: int|
                0 <= t < i ==> (#[trigger] finals@[t]).wf() && finals@[t]@ == final_value(
                    claims@[t].expr,
                    proof.witness_eval@,
                    proof.conj_witness_eval@,
                    zv,
                    total as nat,
                ),
        decreases m - i,
    {
        assert(is_canonical(claims@[i as int].expr));
        finals.push(final_eval(&claims[i].expr, &proof.witness_eval, &proof.conj_witness_eval, &z, total));
        i = i + 1;
    }
    proof {
        assert(vec_view(finals@) =~= Seq::new(
            claims@.len(),
            |j: int| final_value(claims@[j].expr, proof.witness_eval@, proof.conj_witness_eval@, zv, total as nat),
        ));
    }
    let ff = to_field(&batch(&finals, &gammas), &weights);
    if !ff.equals(&fin) {
        return None;
    }
    hash_wrapper.update_with_ring_element(&proof.witness_eval);
    hash_wrapper.update_with_ring_element(&proof.conj_witness_eval);
    let wbits = ilog2(shape.width);
    proof {
        assert(shape.width <= n) by (nonlinear_arith)
            requires
                n == shape.height * shape.width,
                n > 0,
        ;
        lemma_log2_mono(shape.width as nat, n as nat);
    }
    let (outer, outer_conj) = point_rows(&z, 0, wbits);
    let (inner, inner_conj) = point_rows(&z, wbits, total);
    let ci = ChainInputs {
        evaluation_points_inner: vec![inner, inner_conj],
        evaluation_points_outer: vec![outer, outer_conj],
        claims: vec![proof.witness_eval.duplicate(), proof.conj_witness_eval.conjugate()],
    };
    Some(ci)
}

/// `d` is a canonical form of `c` over a cube of `total` variables: the
/// same value, canonical leaves only, and the same sum over every witness.
pub open spec fn canonical_form_of(c: SnarkClaim, d: SnarkClaim, total: nat) -> bool {
    &&& d.value == c.value
    &&& is_canonical(d.expr)
    &&& expr_ok(d.expr, total)
    &&& forall|data: Seq<Seq<(int, int)>>, n: nat|
        witness_ok(data, total) && n <= data.len() ==> #[trigger] cube_sum(d.expr, data, total, n)
            == cube_sum(c.expr, data, total, n)
}

/// What [`verify_canonical_claims`] decides, on the canonical forms `cs`,
/// once every public weight is checked to fit the cube.
pub open spec fn canonical_verdict(
    shape: WitnessShape,
    cs: Seq<SnarkClaim>,
    proof: InitialSumcheckProof,
    a0: Seq<u8>,
    r: Option<ChainInputs>,
    after: Seq<u8>,
    squeezed: nat,
) -> bool {
    let total = log2((shape.height * shape.width) as nat);
    let a1 = bound_transcript(a0, cs);
    &&& r is Some <==> (is_pow2((shape.height * shape.width) as nat) && (forall|i: int|
        0 <= i < cs.len() ==> #[trigger] degree_ok(cs[i].expr, total)) && claims_accepted(
        shape,
        cs,
        proof,
        a0,
    ))
    &&& r matches Some(ci) ==> {
        &&& chain_inputs_ok(
            ci,
            final_point(a0, cs, proof, total),
            log2(shape.width as nat) as int,
            total as int,
            proof.witness_eval@,
            proof.conj_witness_eval@,
        )
        &&& after == absorbed_rounds(a1, proof.polys@, total) + element_bytes(
            proof.witness_eval@,
            HALF_DEGREE as nat,
        ) + element_bytes(proof.conj_witness_eval@, HALF_DEGREE as nat)
        &&& squeezed == 0
    }
}

/// `cs` are the canonical forms of `claims`: the same values, and each
/// expression canonical, with the tree [`canon_spec`] gives.
pub open spec fn canonical_forms(claims: Seq<SnarkClaim>, cs: Seq<SnarkClaim>) -> bool {
    &&& cs.len() == claims.len()
    &&& forall|i: int|
        #![trigger cs[i]]
        0 <= i < cs.len() ==> cs[i].value == claims[i].value && is_canonical(cs[i].expr)
            && canon_view(cs[i].expr) == canon_spec(claims[i].expr)
}

/// Two canonical expressions with the same tree have the same final value
/// and the same degrees, and fit the same cubes.
proof fn lemma_same_tree(
    e1: ClaimExpr,
    e2: ClaimExpr,
    we: Seq<(int, int)>,
    ce: Seq<(int, int)>,
    z: Seq<(int, int)>,
    total: nat,
    v: int,
)
    requires
        is_canonical(e1),
        is_canonical(e2),
        canon_view(e1) == canon_view(e2),
    ensures
        final_value(e1, we, ce, z, total) == final_value(e2, we, ce, z, total),
        degree_ok(e1, total) == degree_ok(e2, total),
        degree_at(e1, total, v) == degree_at(e2, total, v),
    decreases e1,
{
    match e1 {
        ClaimExpr::Product(a1, b1) => {
            if let ClaimExpr::Product(a2, b2) = e2 {
                lemma_same_tree(*a1, *a2, we, ce, z, total, v);
                lemma_same_tree(*b1, *b2, we, ce, z, total, v);
            }
        },
        ClaimExpr::Sum(a1, b1) => {
            if let ClaimExpr::Sum(a2, b2) = e2 {
                lemma_same_tree(*a1, *a2, we, ce, z, total, v);
                lemma_same_tree(*b1, *b2, we, ce, z, total, v);
            }
        },
        ClaimExpr::Diff(a1, b1) => {
            if let ClaimExpr::Diff(a2, b2) = e2 {
                lemma_same_tree(*a1, *a2, we, ce, z, total, v);
                lemma_same_tree(*b1, *b2, we, ce, z, total, v);
            }
        },
        _ => {},
    }
}

/// The verdict on canonical claims is fixed by their values and trees: any
/// two lists of canonical claims with the same values and trees get the same
/// verdict.
pub proof fn lemma_verdict_by_trees(
    shape: WitnessShape,
    cs1: Seq<SnarkClaim>,
    cs2: Seq<SnarkClaim>,
    proof: InitialSumcheckProof,
    a0: Seq<u8>,
    r: Option<ChainInputs>,
    after: Seq<u8>,
    squeezed: nat,
)
    requires
        cs1.len() == cs2.len(),
        forall|i: int|
            #![trigger cs1[i], cs2[i]]
            0 <= i < cs1.len() ==> cs1[i].value == cs2[i].value && is_canonical(cs1[i].expr)
                && is_canonical(cs2[i].expr) && canon_view(cs1[i].expr) == canon_view(cs2[i].expr),
    ensures
        canonical_verdict(shape, cs1, proof, a0, r, after, squeezed) == canonical_verdict(
            shape,
            cs2,
            proof,
            a0,
            r,
            after,
            squeezed,
        ),
{
    let total = log2((shape.height * shape.width) as nat);
    assert(claim_values(cs1) =~= claim_values(cs2)) by {
        assert forall|i: int| 0 <= i < cs1.len() implies claim_values(cs1)[i] == claim_values(cs2)[i] by {
            assert(cs1[i].value == cs2[i].value);
        }
    }
    let a1 = bound_transcript(a0, cs1);
    assert(a1 == bound_transcript(a0, cs2));
    assert(batching_challenges(a0, cs1) =~= batching_challenges(a0, cs2));
    assert(field_weights(a0, cs1) == field_weights(a0, cs2));
    assert(initial_field_claim(a0, cs1) == initial_field_claim(a0, cs2));
    let z = final_point(a0, cs1, proof, total);
    assert(z =~= final_point(a0, cs2, proof, total));
    let we = proof.witness_eval@;
    let ce = proof.conj_witness_eval@;
    let v1 = Seq::new(cs1.len(), |i: int| final_value(cs1[i].expr, we, ce, z, total));
    let v2 = Seq::new(cs2.len(), |i: int| final_value(cs2[i].expr, we, ce, z, total));
    assert forall|i: int| 0 <= i < cs1.len() implies v1[i] == v2[i] by {
        assert(cs1[i].value == cs2[i].value);
        lemma_same_tree(cs1[i].expr, cs2[i].expr, we, ce, z, total, 0);
    }
    assert(v1 =~= v2);
    assert(final_field_claim(a0, cs1, proof, total) == final_field_claim(a0, cs2, proof, total));
    assert(claims_valid(cs1, total) == claims_valid(cs2, total)) by {
        if claims_valid(cs1, total) {
            assert forall|i: int, v: int| 0 <= i < cs2.len() && 0 <= v < total implies #[trigger] degree_at(
                cs2[i].expr,
                total,
                v,
            ) <= 3 by {
                assert(cs1[i].value == cs2[i].value);
                lemma_same_tree(cs1[i].expr, cs2[i].expr, we, ce, z, total, v);
            }
        }
        if claims_valid(cs2, total) {
            assert forall|i: int, v: int| 0 <= i < cs1.len() && 0 <= v < total implies #[trigger] degree_at(
                cs1[i].expr,
                total,
                v,
            ) <= 3 by {
                assert(cs1[i].value == cs2[i].value);
                lemma_same_tree(cs1[i].expr, cs2[i].expr, we, ce, z, total, v);
            }
        }
    }
    assert((forall|i: int| 0 <= i < cs1.len() ==> #[trigger] degree_ok(cs1[i].expr, total)) == (forall|
        i: int,
    | 0 <= i < cs2.len() ==> #[trigger] degree_ok(cs2[i].expr, total))) by {
        assert forall|i: int| 0 <= i < cs1.len() implies degree_ok(cs1[i].expr, total) == degree_ok(
            cs2[i].expr,
            total,
        ) by {
            assert(cs1[i].value == cs2[i].value);
            lemma_same_tree(cs1[i].expr, cs2[i].expr, we, ce, z, total, 0);
        }
    }
    let c0 = initial_field_claim(a0, cs1);
    assert((forall|t: nat| t < total ==> #[trigger] round_ok(c0, a1, proof.polys@, t)) == (forall|t: nat|
        t < total ==> #[trigger] round_ok(initial_field_claim(a0, cs2), bound_transcript(a0, cs2), proof.polys@, t)));
    assert(claims_accepted(shape, cs1, proof, a0) == claims_accepted(shape, cs2, proof, a0));
}

proof fn lemma_forms_verdict(
    claims: Seq<SnarkClaim>,
    cs0: Seq<SnarkClaim>,
    shape: WitnessShape,
    proof: InitialSumcheckProof,
    a0: Seq<u8>,
    r: Option<ChainInputs>,
    after: Seq<u8>,
    squeezed: nat,
)
    requires
        canonical_forms(claims, cs0),
        canonical_verdict(shape, cs0, proof, a0, r, after, squeezed),
    ensures
        forall|cs: Seq<SnarkClaim>|
            canonical_forms(claims, cs) ==> #[trigger] canonical_verdict(shape, cs, proof, a0, r, after, squeezed),
{
    assert forall|cs: Seq<SnarkClaim>| canonical_forms(claims, cs) implies #[trigger] canonical_verdict(
        shape,
        cs,
        proof,
        a0,
        r,
        after,
        squeezed,
    ) by {
        assert forall|i: int| 0 <= i < cs0.len() implies cs0[i].value == cs[i].value && is_canonical(
            cs0[i].expr,
        ) && is_canonical(cs[i].expr) && canon_view(cs0[i].expr) == canon_view(cs[i].expr) by {
            assert(cs0[i].value == claims[i].value);
            assert(cs[i].value == claims[i].value);
        }
        lemma_verdict_by_trees(shape, cs0, cs, proof, a0, r, after, squeezed);
    }
}

/// The verifier's side of the initial claims: puts each claim in canonical
/// form, checks that every public weight fits the cube, and runs
/// [`verify_canonical_claims`]. `None` exactly where a check fails. The
/// verdict is the one on the canonical forms of the claims, whose trees
/// [`canon_spec`] fixes; every list of canonical claims with those values
/// and trees gets the same verdict. The claims are consumed by their
/// canonicalization.
pub fn verify_claims(
    shape: WitnessShape,
    claims: Vec<SnarkClaim>,
    proof: &InitialSumcheckProof,
    hash_wrapper: &mut HashWrapper,
) -> (r: Option<ChainInputs>)
    requires
        shape.height * shape.width <= usize::MAX,
        HALF_DEGREE * (claims@.len() + 1) < u64::MAX,
        forall|i: int|
            0 <= i < claims@.len() ==> consts_ok(#[trigger] claims@[i].expr) && expr_ok(
                claims@[i].expr,
                log2((shape.height * shape.width) as nat),
            ) && claims@[i].value.wf(),
        proof.witness_eval.wf(),
        proof.conj_witness_eval.wf(),
        forall|t: int| 0 <= t < proof.polys@.len() ==> (#[trigger] proof.polys@[t]).wf(),
    ensures
        exists|cs: Seq<SnarkClaim>|
            #![trigger canonical_verdict(shape, cs, *proof, old(hash_wrapper)@.absorbed, r, final(hash_wrapper)@.absorbed, final(hash_wrapper)@.squeezed)]
            canonical_forms(claims@, cs) && (forall|i: int|
                0 <= i < cs.len() ==> #[trigger] canonical_form_of(
                    claims@[i],
                    cs[i],
                    log2((shape.height * shape.width) as nat),
                )) && canonical_verdict(
                shape,
                cs,
                *proof,
                old(hash_wrapper)@.absorbed,
                r,
                final(hash_wrapper)@.absorbed,
                final(hash_wrapper)@.squeezed,
            ),
        forall|cs: Seq<SnarkClaim>|
            canonical_forms(claims@, cs) ==> #[trigger] canonical_verdict(
                shape,
                cs,
                *proof,
                old(hash_wrapper)@.absorbed,
                r,
                final(hash_wrapper)@.absorbed,
                final(hash_wrapper)@.squeezed,
            ),
{
    let ghost orig = claims@;
    let ghost total_s = log2((shape.height * shape.width) as nat);
    let mut rest = claims;
    let mut canon: Vec<SnarkClaim> = Vec::new();
    while rest.len() > 0
        invariant
            canon@.len() + rest@.len() == orig.len(),
            total_s == log2((shape.height * shape.width) as nat),
            rest@ == orig.subrange(canon@.len() as int, orig.len() as int),
            forall|j: int|
                0 <= j < orig.len() ==> consts_ok(#[trigger] orig[j].expr) && expr_ok(
                    orig[j].expr,
                    total_s,
                ) && orig[j].value.wf(),
            forall|j: int|
                0 <= j < canon@.len() ==> #[trigger] canonical_form_of(orig[j], canon@[j], total_s),
            forall|j: int|
                0 <= j < canon@.len() ==> canon_view(#[trigger] canon@[j].expr) == canon_spec(orig[j].expr),
        decreases rest@.len(),
    {
        let ghost k = canon@.len();
        let c = rest.remove(0);
        proof {
            assert(c == orig[k as int]);
        }
        canon.push(canonicalize(c));
        proof {
            assert(rest@ =~= orig.subrange(canon@.len() as int, orig.len() as int));
        }
    }
    let ghost cs = canon@;
    proof {
        assert forall|j: int| 0 <= j < cs.len() implies cs[j].value == orig[j].value && is_canonical(
            cs[j].expr,
        ) && canon_view(cs[j].expr) == canon_spec(orig[j].expr) by {
            assert(canonical_form_of(orig[j], cs[j], total_s));
            assert(canon_view(canon@[j].expr) == canon_spec(orig[j].expr));
        }
        assert(canonical_forms(orig, cs));
    }
    let n = shape.height * shape.width;
    if !is_power_of_two(n) {
        proof {
            assert(canonical_verdict(shape, cs, *proof, old(hash_wrapper)@.absorbed, None, hash_wrapper@.absorbed, hash_wrapper@.squeezed));
            lemma_forms_verdict(orig, cs, shape, *proof, old(hash_wrapper)@.absorbed, None, hash_wrapper@.absorbed, hash_wrapper@.squeezed);
        }
        return None;
    }
    let total = ilog2(n);
    proof {
        lemma_pow2_log2(n as nat);
    }
    let mut i: usize = 0;
    while i < canon.len()
        invariant
            i <= canon@.len(),
            canon@ == cs,
            total == total_s,
            total_s == log2((shape.height * shape.width) as nat),
            cs.len() == orig.len(),
            orig == claims@,
            canonical_forms(orig, cs),
            forall|j: int| 0 <= j < cs.len() ==> #[trigger] canonical_form_of(orig[j], cs[j], total_s),
            pow2(total as nat) <= usize::MAX,
            forall|j: int| 0 <= j < i ==> degree_ok(#[trigger] cs[j].expr, total as nat),
        decreases canon@.len() - i,
    {
        if !fits_cube(&canon[i].expr, total) {
            proof {
                assert(!degree_ok(cs[i as int].expr, total_s));
                assert(!(forall|j: int| 0 <= j < cs.len() ==> #[trigger] degree_ok(cs[j].expr, total_s)));
                assert(canonical_verdict(shape, cs, *proof, old(hash_wrapper)@.absorbed, None, hash_wrapper@.absorbed, hash_wrapper@.squeezed));
                lemma_forms_verdict(orig, cs, shape, *proof, old(hash_wrapper)@.absorbed, None, hash_wrapper@.absorbed, hash_wrapper@.squeezed);
            }
            return None;
        }
        i = i + 1;
    }
    proof {
        assert forall|j: int| 0 <= j < cs.len() implies is_canonical(#[trigger] cs[j].expr)
            && expr_ok(cs[j].expr, total_s) && degree_ok(cs[j].expr, total_s) && cs[j].value.wf() by {
            assert(canonical_form_of(orig[j], cs[j], total_s));
            assert(degree_ok(cs[j].expr, total as nat));
        }
    }
    let r = verify_canonical_claims(shape, &canon, proof, hash_wrapper);
    proof {
        assert(canonical_verdict(shape, cs, *proof, old(hash_wrapper)@.absorbed, r, hash_wrapper@.absorbed, hash_wrapper@.squeezed));
        lemma_forms_verdict(orig, cs, shape, *proof, old(hash_wrapper)@.absorbed, r, hash_wrapper@.absorbed, hash_wrapper@.squeezed);
    }
    r
}

} // verus!
