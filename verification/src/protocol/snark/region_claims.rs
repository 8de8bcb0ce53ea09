//! Claims over one region of the witness: the eq weight on the region's
//! variables times the region's entries sums to the eq-weighted sum of those
//! entries, which both sides compute from public boundary data.
use vstd::prelude::*;
use vstd::arithmetic::div_mod::*;
use vstd::arithmetic::mul::*;
use vstd::arithmetic::power2::*;
use crate::common::algebra::{lemma_sconst_wf, lemma_seq_laws, sconst, smul};
use crate::common::bits::{lemma_pow2_log2, log2};
use crate::common::config::HALF_DEGREE;
use crate::common::ring_arithmetic::QuadraticExtension;
use crate::protocol::commitment::Prefix;
use crate::protocol::snark::lowering::{ClaimExpr, ClaimFactor};
use crate::protocol::snark::semantics::{
    cube_sum, eval_expr, in_prefix_spec, lemma_consts_wf, middle_index, middle_vars, lemma_rops_wf, rwf, rzero, witness_ok,
};
use crate::protocol::snark::tensor::{lemma_tensor_val_reduced, qe_all_wf, qe_seq, tensor_val};
use crate::protocol::snark::{eq_weighted, region_ok, weight_factor, Scalars, Vars, Weight, WeightKind};

verus! {

/// The leaf `witness_in` gives for a region: the whole witness when the
/// region is all of it, else the segment under the region's prefix.
pub open spec fn region_leaf(start: int, len: int, witness_len: int) -> ClaimExpr {
    if len == witness_len {
        ClaimExpr::Factor(ClaimFactor::Witness)
    } else {
        ClaimExpr::Factor(
            ClaimFactor::WitnessSegment(
                Prefix {
                    prefix: (start / len) as usize,
                    length: (log2(witness_len as nat) - log2(len as nat)) as usize,
                },
            ),
        )
    }
}

/// The eq weight over the point, placed on the variables `at`.
pub open spec fn eq_on(point: Vec<QuadraticExtension>, at: Vars) -> ClaimExpr {
    ClaimExpr::Factor(
        ClaimFactor::Public(
            weight_factor(
                Weight {
                    kind: WeightKind::Eq(Scalars::Field(point)),
                    placement: Some(at),
                    coefficient: None,
                },
            ),
        ),
    )
}

proof fn lemma_eq_weighted_wf(layers: Seq<(int, int)>, values: Seq<Seq<(int, int)>>, n: nat)
    requires
        n <= values.len(),
        forall|i: int| 0 <= i < values.len() ==> #[trigger] rwf(values[i]),
    ensures
        rwf(eq_weighted(layers, values, n)),
    decreases n,
{
    lemma_consts_wf();
    if n > 0 {
        lemma_eq_weighted_wf(layers, values, (n - 1) as nat);
        lemma_tensor_val_reduced(layers, n - 1);
        lemma_sconst_wf(HALF_DEGREE as nat, tensor_val(layers, n - 1));
        assert(rwf(values[n - 1]));
        lemma_rops_wf(sconst(HALF_DEGREE as nat, tensor_val(layers, n - 1)), values[n - 1]);
        lemma_rops_wf(
            eq_weighted(layers, values, (n - 1) as nat),
            smul(sconst(HALF_DEGREE as nat, tensor_val(layers, n - 1)), values[n - 1]),
        );
    }
}

/// Where an index lies relative to an aligned block `[m len, (m + 1) len)`.
proof fn lemma_block_position(i: int, len: int, m: int)
    requires
        len > 0,
        m >= 0,
        i >= 0,
    ensures
        m * len <= i < m * len + len ==> i / len == m && i % len == i - m * len,
        i < m * len ==> i / len < m,
        i >= m * len + len ==> i / len > m,
{
    lemma_fundamental_div_mod(i, len);
    lemma_mod_bound(i, len);
    if m * len <= i < m * len + len {
        lemma_fundamental_div_mod_converse(i, len, m, i - m * len);
    }
    if i < m * len && i / len >= m {
        lemma_mul_inequality(m, i / len, len);
        lemma_mul_is_commutative(len, i / len);
    }
    if i >= m * len + len && i / len <= m {
        lemma_mul_inequality(i / len, m, len);
        lemma_mul_is_commutative(len, i / len);
    }
}

/// The value of the region claim at one index: the eq weight of the index
/// within the region times the entry there, and zero outside the region.
proof fn lemma_region_claim_at(
    point: Vec<QuadraticExtension>,
    at: Vars,
    start: int,
    len: int,
    witness_len: int,
    data: Seq<Seq<(int, int)>>,
    i: int,
)
    requires
        region_ok(start, len, witness_len),
        witness_len <= usize::MAX,
        at@ == (
            log2(witness_len as nat) - log2(len as nat),
            log2(len as nat) as int,
            log2(witness_len as nat) as int,
        ),
        qe_all_wf(point@),
        witness_ok(data, log2(witness_len as nat)),
        0 <= i < witness_len,
    ensures
        eval_expr(
            ClaimExpr::Product(
                Box::new(eq_on(point, at)),
                Box::new(region_leaf(start, len, witness_len)),
            ),
            data,
            i,
            log2(witness_len as nat),
        ) == if start <= i < start + len {
            smul(sconst(HALF_DEGREE as nat, tensor_val(qe_seq(point@), i - start)), data[i])
        } else {
            rzero()
        },
{
    let total = log2(witness_len as nat);
    let k = log2(len as nat);
    lemma_pow2_log2(len as nat);
    lemma_pow2_log2(witness_len as nat);
    lemma2_to64();
    lemma_consts_wf();
    let pf = weight_factor(
        Weight { kind: WeightKind::Eq(Scalars::Field(point)), placement: Some(at), coefficient: None },
    );
    assert(pf.prefix_len == total - k && pf.suffix_len == 0);
    let m = start / len;
    lemma_fundamental_div_mod(start, len);
    assert(start == m * len) by {
        lemma_mul_is_commutative(len, m);
    }
    lemma_block_position(i, len, m);
    assert(i / (pow2(0) as int) == i);
    let t = tensor_val(qe_seq(point@), i % len);
    lemma_tensor_val_reduced(qe_seq(point@), i % len);
    lemma_sconst_wf(HALF_DEGREE as nat, t);
    assert(data.len() == witness_len);
    assert(crate::common::algebra::swf(data[i]));
    assert(swf_data(data, i));
    lemma_seq_laws(sconst(HALF_DEGREE as nat, t), rzero(), rzero());
    assert(pow2(pf.suffix_len as nat) == 1);
    assert(middle_vars(pf, total) == k);
    assert(middle_index(pf, i, total) == i % len);
    assert(eval_expr(eq_on(point, at), data, i, total) == sconst(HALF_DEGREE as nat, t));
    assert(eval_expr(
        ClaimExpr::Product(Box::new(eq_on(point, at)), Box::new(region_leaf(start, len, witness_len))),
        data,
        i,
        total,
    ) == smul(sconst(HALF_DEGREE as nat, t), eval_expr(region_leaf(start, len, witness_len), data, i, total)));
    assert(smul(sconst(HALF_DEGREE as nat, t), rzero()) == rzero());
    if len == witness_len {
        assert(start == 0);
        lemma_small_mod(i as nat, len as nat);
        assert(i % len == i - start);
        assert(eval_expr(region_leaf(start, len, witness_len), data, i, total) == data[i]);
    } else {
        if k > total {
            lemma_pow2_strictly_increases(total, k);
        }
        assert(k < total);
        let p = Prefix { prefix: m as usize, length: (total - k) as usize };
        assert(region_leaf(start, len, witness_len) == ClaimExpr::Factor(ClaimFactor::WitnessSegment(p)));
        assert(pow2((total - p.length) as nat) == len);
        assert(in_prefix_spec(i, p, total) == (i / len == m));
        if start <= i < start + len {
            assert(i / len == m);
            assert(i % len == i - start);
            assert(eval_expr(region_leaf(start, len, witness_len), data, i, total) == data[i]);
        } else {
            assert(i / len != m);
            assert(eval_expr(region_leaf(start, len, witness_len), data, i, total) == rzero());
        }
    }
}

spec fn swf_data(data: Seq<Seq<(int, int)>>, i: int) -> bool {
    rwf(data[i])
}

/// The claim `eq(point).on(region.vars()) * witness_in(region)` sums over the
/// whole cube to the eq-weighted sum of the region's entries, which is what
/// `eq_weighted_sum(point, values)` computes from them.
pub proof fn lemma_eq_region_sum(
    point: Vec<QuadraticExtension>,
    at: Vars,
    start: int,
    len: int,
    witness_len: int,
    data: Seq<Seq<(int, int)>>,
)
    requires
        region_ok(start, len, witness_len),
        witness_len <= usize::MAX,
        at@ == (
            log2(witness_len as nat) - log2(len as nat),
            log2(len as nat) as int,
            log2(witness_len as nat) as int,
        ),
        qe_all_wf(point@),
        point@.len() == log2(len as nat),
        witness_ok(data, log2(witness_len as nat)),
    ensures
        cube_sum(
            ClaimExpr::Product(
                Box::new(eq_on(point, at)),
                Box::new(region_leaf(start, len, witness_len)),
            ),
            data,
            log2(witness_len as nat),
            witness_len as nat,
        ) == eq_weighted(qe_seq(point@), data.subrange(start, start + len), len as nat),
{
    lemma_pow2_log2(witness_len as nat);
    lemma_region_prefix_sum(point, at, start, len, witness_len, data, witness_len as nat);
}

proof fn lemma_region_prefix_sum(
    point: Vec<QuadraticExtension>,
    at: Vars,
    start: int,
    len: int,
    witness_len: int,
    data: Seq<Seq<(int, int)>>,
    n: nat,
)
    requires
        region_ok(start, len, witness_len),
        witness_len <= usize::MAX,
        at@ == (
            log2(witness_len as nat) - log2(len as nat),
            log2(len as nat) as int,
            log2(witness_len as nat) as int,
        ),
        qe_all_wf(point@),
        witness_ok(data, log2(witness_len as nat)),
        n <= witness_len,
    ensures
        cube_sum(
            ClaimExpr::Product(
                Box::new(eq_on(point, at)),
                Box::new(region_leaf(start, len, witness_len)),
            ),
            data,
            log2(witness_len as nat),
            n,
        ) == if n <= start {
            rzero()
        } else if n <= start + len {
            eq_weighted(qe_seq(point@), data.subrange(start, start + len), (n - start) as nat)
        } else {
            eq_weighted(qe_seq(point@), data.subrange(start, start + len), len as nat)
        },
    decreases n,
{
    let e = ClaimExpr::Product(
        Box::new(eq_on(point, at)),
        Box::new(region_leaf(start, len, witness_len)),
    );
    let total = log2(witness_len as nat);
    let sub = data.subrange(start, start + len);
    let pt = qe_seq(point@);
    lemma_consts_wf();
    lemma_pow2_log2(witness_len as nat);
    if n > 0 {
        lemma_region_prefix_sum(point, at, start, len, witness_len, data, (n - 1) as nat);
        lemma_region_claim_at(point, at, start, len, witness_len, data, n - 1);
        let prev = cube_sum(e, data, total, (n - 1) as nat);
        assert forall|j: int| 0 <= j < sub.len() implies #[trigger] rwf(sub[j]) by {
            assert(crate::common::algebra::swf(data[start + j]));
            assert(swf_data(data, start + j));
        }
        if n - 1 < start {
            lemma_seq_laws(rzero(), rzero(), rzero());
        } else if n - 1 < start + len {
            let j = n - 1 - start;
            assert(sub[j] == data[n - 1]);
            assert(prev == eq_weighted(pt, sub, j as nat));
        } else {
            lemma_eq_weighted_wf(pt, sub, len as nat);
            lemma_seq_laws(prev, rzero(), rzero());
        }
    }
}

} // verus!
