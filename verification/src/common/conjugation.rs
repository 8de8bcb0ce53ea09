//! Conjugation is an automorphism of the extension and of the split ring, and
//! an involution.
use vstd::prelude::*;
use crate::common::algebra::{
    lemma_mod_add_sub, lemma_mod_lin, padd, pmul, preduced, psub, sadd, sconst, smul, ssub, swf,
};
use crate::common::field::fmod;
use crate::common::ring_arithmetic::{pconj, sconj};

verus! {

/// `conj(a * b) = conj(a) * conj(b)`.
pub proof fn lemma_pconj_mul(a: (int, int), b: (int, int))
    ensures
        pconj(pmul(a, b)) == pmul(pconj(a), pconj(b)),
{
    let (a0, a1) = a;
    let (b0, b1) = b;
    let fb0 = fmod(b0);
    let fnb1 = fmod(-b1);
    // first coordinate
    lemma_mod_lin(a0, -a1, fb0, -fnb1);
    assert(fmod(a0) * fb0 - fmod(-a1) * fnb1 == fmod(a0) * fb0 + fmod(-a1) * (-fnb1))
        by (nonlinear_arith);
    assert(a0 * fb0 + (-a1) * (-fnb1) == a0 * fb0 + a1 * fnb1) by (nonlinear_arith);
    lemma_mod_lin(b0, -b1, a0, a1);
    assert(a0 * b0 + a1 * (-b1) == a0 * b0 - a1 * b1) by (nonlinear_arith);
    lemma_mod_add_sub(a0 * b0 - a1 * b1, 0);
    // second coordinate
    lemma_mod_lin(a0, -a1, fnb1, fb0);
    lemma_mod_lin(-b1, b0, a0, -a1);
    assert(a0 * (-b1) + (-a1) * b0 == -(a0 * b1 + a1 * b0)) by (nonlinear_arith);
    assert(fmod(a0) * fnb1 + fmod(-a1) * fb0 == fmod(a0) * fnb1 + fmod(-a1) * fb0);
    lemma_mod_add_sub(0, a0 * b1 + a1 * b0);
    assert(0 - (a0 * b1 + a1 * b0) == -(a0 * b1 + a1 * b0));
}

/// Conjugation commutes with sums and differences.
pub proof fn lemma_pconj_add_sub(a: (int, int), b: (int, int))
    ensures
        pconj(padd(a, b)) == padd(pconj(a), pconj(b)),
        pconj(psub(a, b)) == psub(pconj(a), pconj(b)),
{
    lemma_mod_add_sub(a.0 + b.0, 0);
    lemma_mod_add_sub(a.0, b.0);
    lemma_mod_add_sub(a.0 - b.0, 0);
    lemma_mod_add_sub(0, a.1 + b.1);
    lemma_mod_add_sub(-a.1, -b.1);
    assert(-a.1 + -b.1 == 0 - (a.1 + b.1));
    lemma_mod_add_sub(0, a.1 - b.1);
    assert(-a.1 - -b.1 == 0 - (a.1 - b.1));
}

/// Conjugating twice gives back a canonical value.
pub proof fn lemma_pconj_involution(a: (int, int))
    requires
        preduced(a),
    ensures
        pconj(pconj(a)) == a,
{
    lemma_mod_add_sub(a.0, 0);
    lemma_mod_add_sub(0, -a.1);
    lemma_mod_add_sub(a.1, 0);
    vstd::arithmetic::div_mod::lemma_small_mod(a.0 as nat, crate::common::field::q() as nat);
    vstd::arithmetic::div_mod::lemma_small_mod(a.1 as nat, crate::common::field::q() as nat);
    assert(0 - (0 - a.1) == a.1);
}

/// Ring conjugation is multiplicative.
pub proof fn lemma_sconj_mul(a: Seq<(int, int)>, b: Seq<(int, int)>)
    requires
        a.len() == b.len(),
    ensures
        sconj(smul(a, b)) == smul(sconj(a), sconj(b)),
{
    let n = a.len();
    assert forall|j: int| 0 <= j < n implies #[trigger] sconj(smul(a, b))[j] == smul(
        sconj(a),
        sconj(b),
    )[j] by {
        lemma_pconj_mul(a[n - 1 - j], b[n - 1 - j]);
    }
    assert(sconj(smul(a, b)) =~= smul(sconj(a), sconj(b)));
}

/// Ring conjugation is additive.
pub proof fn lemma_sconj_add(a: Seq<(int, int)>, b: Seq<(int, int)>)
    requires
        a.len() == b.len(),
    ensures
        sconj(sadd(a, b)) == sadd(sconj(a), sconj(b)),
{
    let n = a.len();
    assert forall|j: int| 0 <= j < n implies #[trigger] sconj(sadd(a, b))[j] == sadd(
        sconj(a),
        sconj(b),
    )[j] by {
        lemma_pconj_add_sub(a[n - 1 - j], b[n - 1 - j]);
    }
    assert(sconj(sadd(a, b)) =~= sadd(sconj(a), sconj(b)));
}

/// Ring conjugation commutes with differences.
pub proof fn lemma_sconj_sub(a: Seq<(int, int)>, b: Seq<(int, int)>)
    requires
        a.len() == b.len(),
    ensures
        sconj(ssub(a, b)) == ssub(sconj(a), sconj(b)),
{
    let n = a.len();
    assert forall|j: int| 0 <= j < n implies #[trigger] sconj(ssub(a, b))[j] == ssub(
        sconj(a),
        sconj(b),
    )[j] by {
        lemma_pconj_add_sub(a[n - 1 - j], b[n - 1 - j]);
    }
    assert(sconj(ssub(a, b)) =~= ssub(sconj(a), sconj(b)));
}

/// Ring conjugation fixes zero and is an involution on canonical elements.
pub proof fn lemma_sconj_zero_involution(a: Seq<(int, int)>)
    ensures
        sconj(sconst(a.len(), (0, 0))) == sconst(a.len(), (0, 0)),
        swf(a) ==> sconj(sconj(a)) == a,
{
    let n = a.len();
    assert(pconj((0, 0)) == (0int, 0int)) by {
        vstd::arithmetic::div_mod::lemma_small_mod(0, crate::common::field::q() as nat);
    }
    assert(sconj(sconst(n, (0, 0))) =~= sconst(n, (0, 0)));
    if swf(a) {
        assert forall|j: int| 0 <= j < n implies #[trigger] sconj(sconj(a))[j] == a[j] by {
            assert(preduced(a[j]));
            lemma_pconj_involution(a[j]);
        }
        assert(sconj(sconj(a)) =~= a);
    }
}

/// Conjugates are canonical.
pub proof fn lemma_sconj_wf(a: Seq<(int, int)>)
    ensures
        swf(sconj(a)),
        sconj(a).len() == a.len(),
{
    assert forall|j: int| 0 <= j < a.len() implies #[trigger] preduced(sconj(a)[j]) by {
        lemma_mod_add_sub(a[a.len() - 1 - j].0, 0);
        lemma_mod_add_sub(-a[a.len() - 1 - j].1, 0);
    }
}

} // verus!
