//! What a claim expression means: its value at each point of the witness
//! cube, and its sum over the cube.
use vstd::prelude::*;
use vstd::arithmetic::power2::{lemma_pow2_pos, pow2};
use vstd::arithmetic::div_mod::lemma_mod_bound;
use crate::common::algebra::{lemma_sconst_wf, sadd, sconst, smul, ssub, swf};
use crate::common::config::HALF_DEGREE;
use crate::common::matrix::{vec_view, vec_wf};
use crate::common::ring_arithmetic::sconj;
use crate::protocol::commitment::Prefix;
use crate::protocol::snark::lowering::{ClaimExpr, ClaimFactor, Coeffs, PublicFactor, Weights};
use crate::common::conjugation::lemma_sconj_wf;
use crate::protocol::snark::tensor::{lemma_tensor_val_reduced, qe_all_wf, qe_seq, tensor_val};
pub use crate::common::structured_row::{
    lemma_consts_wf, lemma_rops_wf, lemma_rtensor_wf, rone, rtensor_val, rwf, rzero,
};

verus! {



/// Index `index` of a cube of `total` variables lies in the block under `p`.
pub open spec fn in_prefix_spec(index: int, p: Prefix, total: nat) -> bool {
    p.length == 0 || index / (pow2((total - p.length) as nat) as int) == p.prefix
}


/// The variables a placed weight varies over.
pub open spec fn middle_vars(pf: PublicFactor, total: nat) -> int {
    total - pf.prefix_len - pf.suffix_len
}

/// The position of `index` among the middle variables of a placed weight.
pub open spec fn middle_index(pf: PublicFactor, index: int, total: nat) -> int {
    (index / (pow2(pf.suffix_len as nat) as int)) % (pow2(middle_vars(pf, total) as nat) as int)
}

/// Entry `i` of weight data, as a ring element.
pub open spec fn coeff_at(c: Coeffs, i: int) -> Seq<(int, int)> {
    match c {
        Coeffs::Ring(v) => v@[i]@,
        Coeffs::Field(v) => sconst(HALF_DEGREE as nat, v@[i]@),
    }
}

/// The value of a public weight at a point of the cube.
pub open spec fn public_val(pf: PublicFactor, index: int, total: nat) -> Seq<(int, int)> {
    match pf.weights {
        Weights::Selector { bits, length } => if in_prefix_spec(
            index,
            Prefix { prefix: bits, length },
            total,
        ) {
            rone()
        } else {
            rzero()
        },
        Weights::Dense(c) => coeff_at(c, middle_index(pf, index, total)),
        Weights::Tensor(Coeffs::Field(layers)) => sconst(
            HALF_DEGREE as nat,
            tensor_val(qe_seq(layers@), middle_index(pf, index, total)),
        ),
        Weights::Tensor(Coeffs::Ring(layers)) => rtensor_val(
            vec_view(layers@),
            middle_index(pf, index, total),
        ),
    }
}

/// The value of a claim expression at point `index` of the cube of `total`
/// variables over the witness entries `data`.
pub open spec fn eval_expr(e: ClaimExpr, data: Seq<Seq<(int, int)>>, index: int, total: nat) -> Seq<
    (int, int),
>
    decreases e,
{
    match e {
        ClaimExpr::Factor(ClaimFactor::Witness) => data[index],
        ClaimExpr::Factor(ClaimFactor::ConjWitness) => sconj(data[index]),
        ClaimExpr::Factor(ClaimFactor::WitnessSegment(p)) => if in_prefix_spec(index, p, total) {
            data[index]
        } else {
            rzero()
        },
        ClaimExpr::Factor(ClaimFactor::ConjWitnessSegment(p)) => if in_prefix_spec(
            index,
            p,
            total,
        ) {
            sconj(data[index])
        } else {
            rzero()
        },
        ClaimExpr::Factor(ClaimFactor::Public(pf)) => public_val(pf, index, total),
        ClaimExpr::Constant(c) => c@,
        ClaimExpr::Scale(c, x) => smul(eval_expr(*x, data, index, total), c@),
        ClaimExpr::Product(a, b) => smul(
            eval_expr(*a, data, index, total),
            eval_expr(*b, data, index, total),
        ),
        ClaimExpr::Sum(a, b) => sadd(
            eval_expr(*a, data, index, total),
            eval_expr(*b, data, index, total),
        ),
        ClaimExpr::Diff(a, b) => ssub(
            eval_expr(*a, data, index, total),
            eval_expr(*b, data, index, total),
        ),
    }
}

/// The sum of a claim expression over the first `n` points of the cube.
pub open spec fn cube_sum(e: ClaimExpr, data: Seq<Seq<(int, int)>>, total: nat, n: nat) -> Seq<
    (int, int),
>
    decreases n,
{
    if n == 0 {
        rzero()
    } else {
        sadd(cube_sum(e, data, total, (n - 1) as nat), eval_expr(e, data, n - 1, total))
    }
}

/// The shape of a public weight fits a cube of `total` variables, and its data
/// is canonical.
pub open spec fn public_ok(pf: PublicFactor, total: nat) -> bool {
    &&& pf.prefix_len + pf.suffix_len <= total
    &&& match pf.weights {
        Weights::Selector { bits, length } => length <= total,
        Weights::Dense(Coeffs::Ring(v)) => v@.len() == pow2(middle_vars(pf, total) as nat)
            && vec_wf(v@),
        Weights::Dense(Coeffs::Field(v)) => v@.len() == pow2(middle_vars(pf, total) as nat)
            && qe_all_wf(v@),
        Weights::Tensor(Coeffs::Field(layers)) => qe_all_wf(layers@),
        Weights::Tensor(Coeffs::Ring(layers)) => vec_wf(layers@),
    }
}

/// Every leaf of the expression fits a cube of `total` variables.
pub open spec fn expr_ok(e: ClaimExpr, total: nat) -> bool
    decreases e,
{
    match e {
        ClaimExpr::Factor(ClaimFactor::Witness) => true,
        ClaimExpr::Factor(ClaimFactor::ConjWitness) => true,
        ClaimExpr::Factor(ClaimFactor::WitnessSegment(p)) => p.length <= total,
        ClaimExpr::Factor(ClaimFactor::ConjWitnessSegment(p)) => p.length <= total,
        ClaimExpr::Factor(ClaimFactor::Public(pf)) => public_ok(pf, total),
        ClaimExpr::Constant(c) => c.wf(),
        ClaimExpr::Scale(c, x) => c.wf() && expr_ok(*x, total),
        ClaimExpr::Product(a, b) => expr_ok(*a, total) && expr_ok(*b, total),
        ClaimExpr::Sum(a, b) => expr_ok(*a, total) && expr_ok(*b, total),
        ClaimExpr::Diff(a, b) => expr_ok(*a, total) && expr_ok(*b, total),
    }
}

/// The expression holds no public weight (which conjugation cannot reach).
pub open spec fn no_public(e: ClaimExpr) -> bool
    decreases e,
{
    match e {
        ClaimExpr::Factor(ClaimFactor::Public(_)) => false,
        ClaimExpr::Factor(_) => true,
        ClaimExpr::Constant(_) => true,
        ClaimExpr::Scale(_, x) => no_public(*x),
        ClaimExpr::Product(a, b) => no_public(*a) && no_public(*b),
        ClaimExpr::Sum(a, b) => no_public(*a) && no_public(*b),
        ClaimExpr::Diff(a, b) => no_public(*a) && no_public(*b),
    }
}

/// A witness of `2^total` canonical ring elements.
pub open spec fn witness_ok(data: Seq<Seq<(int, int)>>, total: nat) -> bool {
    data.len() == pow2(total) && forall|i: int| 0 <= i < data.len() ==> #[trigger] swf(data[i])
        && data[i].len() == HALF_DEGREE
}

/// A public weight takes canonical ring values on the cube.
pub proof fn lemma_public_val_wf(pf: PublicFactor, index: int, total: nat)
    requires
        public_ok(pf, total),
        0 <= index,
    ensures
        rwf(public_val(pf, index, total)),
{
    lemma_consts_wf();
    let mv = middle_vars(pf, total);
    lemma_pow2_pos(mv as nat);
    lemma_pow2_pos(pf.suffix_len as nat);
    let mi = middle_index(pf, index, total);
    assert(0 <= index / (pow2(pf.suffix_len as nat) as int)) by {
        vstd::arithmetic::div_mod::lemma_div_pos_is_pos(index, pow2(pf.suffix_len as nat) as int);
    }
    lemma_mod_bound(index / (pow2(pf.suffix_len as nat) as int), pow2(mv as nat) as int);
    match pf.weights {
        Weights::Selector { .. } => {},
        Weights::Dense(Coeffs::Ring(v)) => {
            assert(v@[mi].wf());
        },
        Weights::Dense(Coeffs::Field(v)) => {
            assert(v@[mi].wf());
            lemma_sconst_wf(HALF_DEGREE as nat, v@[mi]@);
        },
        Weights::Tensor(Coeffs::Field(layers)) => {
            lemma_tensor_val_reduced(qe_seq(layers@), mi);
            lemma_sconst_wf(HALF_DEGREE as nat, tensor_val(qe_seq(layers@), mi));
        },
        Weights::Tensor(Coeffs::Ring(layers)) => {
            assert forall|j: int| 0 <= j < vec_view(layers@).len() implies #[trigger] rwf(
                vec_view(layers@)[j],
            ) by {
                assert(layers@[j].wf());
            }
            lemma_rtensor_wf(vec_view(layers@), mi);
        },
    }
}

/// A claim expression whose leaves fit the cube takes canonical ring values
/// at every point of a canonical witness.
pub proof fn lemma_eval_wf(e: ClaimExpr, data: Seq<Seq<(int, int)>>, index: int, total: nat)
    requires
        expr_ok(e, total),
        witness_ok(data, total),
        0 <= index < data.len(),
    ensures
        rwf(eval_expr(e, data, index, total)),
    decreases e,
{
    lemma_consts_wf();
    assert(swf(data[index]) && data[index].len() == HALF_DEGREE);
    match e {
        ClaimExpr::Factor(ClaimFactor::Public(pf)) => lemma_public_val_wf(pf, index, total),
        ClaimExpr::Factor(_) => {
            lemma_sconj_wf(data[index]);
        },
        ClaimExpr::Constant(c) => {},
        ClaimExpr::Scale(c, x) => {
            lemma_eval_wf(*x, data, index, total);
            lemma_rops_wf(eval_expr(*x, data, index, total), c@);
        },
        ClaimExpr::Product(a, b) => {
            lemma_eval_wf(*a, data, index, total);
            lemma_rops_wf(eval_expr(*a, data, index, total), eval_expr(*b, data, index, total));
        },
        ClaimExpr::Sum(a, b) => {
            lemma_eval_wf(*a, data, index, total);
            lemma_rops_wf(eval_expr(*a, data, index, total), eval_expr(*b, data, index, total));
        },
        ClaimExpr::Diff(a, b) => {
            lemma_eval_wf(*a, data, index, total);
            lemma_rops_wf(eval_expr(*a, data, index, total), eval_expr(*b, data, index, total));
        },
    }
}

} // verus!
