//! Laws of the round polynomials in evaluation form: the interpolating
//! evaluation behind `Polynomial::at` gives back the stored evaluations at the
//! nodes.
use vstd::prelude::*;
use vstd::arithmetic::div_mod::*;
use vstd::arithmetic::mul::*;
use crate::common::algebra::{
    fmod_pair, lemma_fmod_pair_fixed, lemma_mod_add_sub, lemma_reduced_fixed, padd, pconst, pmul,
    preduced, psub, sconst, smul, swf,
};
use crate::common::field::{fmod, q};
use crate::common::sumcheck_element::{elem_wf, SumcheckElement};
use crate::protocol::sumcheck_utils::polynomial::{
    ext_at, extended, lagrange, padded_evals, Polynomial, INV_SIX, INV_TWO,
};

verus! {

/// `lagrange` at one slot, for the four evaluations `c` of that slot.
spec fn lagrange_slot(c: Seq<(int, int)>, n: nat, x: (int, int)) -> (int, int) {
    let one = pconst(1);
    let two = pconst(2);
    let three = padd(two, one);
    let inv2 = pconst(INV_TWO as int);
    let inv6 = pconst(INV_SIX as int);
    let rm1 = psub(x, one);
    let rm2 = psub(x, two);
    let rm3 = psub(x, three);
    if n == 0 {
        (0, 0)
    } else if n == 1 {
        c[0]
    } else if n == 2 {
        padd(pmul(psub(c[1], c[0]), x), c[0])
    } else if n == 3 {
        let t0 = pmul(pmul(pmul(rm1, rm2), c[0]), inv2);
        let t1 = pmul(pmul(x, rm2), c[1]);
        let t2 = pmul(pmul(pmul(x, rm1), c[2]), inv2);
        padd(psub(t0, t1), t2)
    } else {
        let t0 = pmul(pmul(pmul(pmul(rm1, rm2), rm3), c[0]), inv6);
        let t1 = pmul(pmul(pmul(pmul(x, rm2), rm3), c[1]), inv2);
        let t2 = pmul(pmul(pmul(pmul(x, rm1), rm3), c[2]), inv2);
        let t3 = pmul(pmul(pmul(pmul(x, rm1), rm2), c[3]), inv6);
        psub(psub(padd(t1, t3), t0), t2)
    }
}

/// The four evaluations at slot `j`.
spec fn slot_of(c: Seq<Seq<(int, int)>>, j: int) -> Seq<(int, int)> {
    Seq::new(4, |i: int| c[i][j])
}

proof fn lemma_lagrange_slot(c: Seq<Seq<(int, int)>>, n: nat, x: Seq<(int, int)>, w: nat, j: int)
    requires
        c.len() == 4,
        forall|i: int| 0 <= i < 4 ==> #[trigger] c[i].len() == w,
        x.len() == w,
        0 <= j < w,
    ensures
        lagrange(c, n, x, w)[j] == lagrange_slot(slot_of(c, j), n, x[j]),
{
    assert(c[0].len() == w && c[1].len() == w && c[2].len() == w && c[3].len() == w);
}

/// Both components multiplied by `s` and reduced.
spec fn pscale(c: (int, int), s: int) -> (int, int) {
    (fmod(c.0 * s), fmod(c.1 * s))
}

proof fn lemma_pconst_ops(a: int, b: int)
    ensures
        padd(pconst(a), pconst(b)) == pconst(a + b),
        psub(pconst(a), pconst(b)) == pconst(a - b),
        pmul(pconst(a), pconst(b)) == pconst(a * b),
{
    lemma_mod_add_sub(a, b);
    lemma_mul_mod_noop(a, b, q());
    assert(fmod(a) * fmod(b) - 0int * 0int == fmod(a) * fmod(b));
    assert(fmod(a) * 0int + 0int * fmod(b) == 0);
}

proof fn lemma_pmul_const(c: (int, int), s: int)
    ensures
        pmul(c, pconst(s)) == pscale(c, s),
        pmul(pconst(s), c) == pscale(c, s),
{
    lemma_mul_mod_noop_right(c.0, s, q());
    lemma_mul_mod_noop_right(c.1, s, q());
    assert(c.0 * fmod(s) - c.1 * 0 == c.0 * fmod(s));
    assert(c.0 * 0 + c.1 * fmod(s) == c.1 * fmod(s));
    assert(fmod(s) * c.0 - 0 * c.1 == c.0 * fmod(s)) by (nonlinear_arith);
    assert(fmod(s) * c.1 + 0 * c.0 == c.1 * fmod(s)) by (nonlinear_arith);
}

proof fn lemma_pscale_twice(c: (int, int), s: int, t: int)
    ensures
        pmul(pscale(c, s), pconst(t)) == pscale(c, s * t),
{
    lemma_pmul_const(pscale(c, s), t);
    lemma_mul_mod_noop_left(c.0 * s, t, q());
    lemma_mul_mod_noop_left(c.1 * s, t, q());
    lemma_mul_is_associative(c.0, s, t);
    lemma_mul_is_associative(c.1, s, t);
}

proof fn lemma_pscale_cases(c: (int, int), s: int)
    requires
        preduced(c),
    ensures
        fmod(s) == 1 ==> pscale(c, s) == c,
        fmod(s) == 0 ==> pscale(c, s) == (0int, 0int),
        fmod(s) == q() - 1 ==> pscale(c, s) == psub((0, 0), c),
{
    lemma_mul_mod_noop_right(c.0, s, q());
    lemma_mul_mod_noop_right(c.1, s, q());
    lemma_reduced_fixed(c.0);
    lemma_reduced_fixed(c.1);
    assert(c.0 * (q() - 1) == q() * c.0 + (0 - c.0)) by (nonlinear_arith);
    assert(c.1 * (q() - 1) == q() * c.1 + (0 - c.1)) by (nonlinear_arith);
    lemma_mod_multiples_vanish(c.0, 0 - c.0, q());
    lemma_mod_multiples_vanish(c.1, 0 - c.1, q());
    assert(c.0 * 0 == 0 && c.1 * 0 == 0);
    assert(c.0 * 1 == c.0 && c.1 * 1 == c.1);
}

proof fn lemma_pair_basics(c: (int, int))
    requires
        preduced(c),
    ensures
        padd(c, (0, 0)) == c,
        padd((0, 0), c) == c,
        psub(c, (0, 0)) == c,
        psub((0, 0), psub((0, 0), c)) == c,
        psub((0int, 0int), (0int, 0int)) == (0int, 0int),
        padd((0int, 0int), (0int, 0int)) == (0int, 0int),
{
    lemma_reduced_fixed(c.0);
    lemma_reduced_fixed(c.1);
    lemma_mod_add_sub(0, 0 - c.0);
    lemma_mod_add_sub(0, 0 - c.1);
}

/// The terms of the three-node interpolation at the embedded integer `k`.
proof fn lemma_slot3(c: Seq<(int, int)>, k: int)
    ensures
        lagrange_slot(c, 3, pconst(k)) == padd(
            psub(pscale(c[0], (k - 1) * (k - 2) * INV_TWO), pscale(c[1], k * (k - 2))),
            pscale(c[2], k * (k - 1) * INV_TWO),
        ),
{
    lemma_pconst_ops(k, 1);
    lemma_pconst_ops(k, 2);
    lemma_pconst_ops(k - 1, k - 2);
    lemma_pconst_ops(k, k - 2);
    lemma_pconst_ops(k, k - 1);
    lemma_pmul_const(c[0], (k - 1) * (k - 2));
    lemma_pscale_twice(c[0], (k - 1) * (k - 2), INV_TWO as int);
    lemma_pmul_const(c[1], k * (k - 2));
    lemma_pmul_const(c[2], k * (k - 1));
    lemma_pscale_twice(c[2], k * (k - 1), INV_TWO as int);
}

/// The terms of the four-node interpolation at the embedded integer `k`.
proof fn lemma_slot4(c: Seq<(int, int)>, k: int)
    ensures
        lagrange_slot(c, 4, pconst(k)) == psub(
            psub(
                padd(
                    pscale(c[1], k * (k - 2) * (k - 3) * INV_TWO),
                    pscale(c[3], k * (k - 1) * (k - 2) * INV_SIX),
                ),
                pscale(c[0], (k - 1) * (k - 2) * (k - 3) * INV_SIX),
            ),
            pscale(c[2], k * (k - 1) * (k - 3) * INV_TWO),
        ),
{
    lemma_pconst_ops(2, 1);
    lemma_pconst_ops(k, 1);
    lemma_pconst_ops(k, 2);
    lemma_pconst_ops(k, 3);
    lemma_pconst_ops(k - 1, k - 2);
    lemma_pconst_ops((k - 1) * (k - 2), k - 3);
    lemma_pconst_ops(k, k - 2);
    lemma_pconst_ops(k * (k - 2), k - 3);
    lemma_pconst_ops(k, k - 1);
    lemma_pconst_ops(k * (k - 1), k - 3);
    lemma_pconst_ops(k * (k - 1), k - 2);
    lemma_pmul_const(c[0], (k - 1) * (k - 2) * (k - 3));
    lemma_pscale_twice(c[0], (k - 1) * (k - 2) * (k - 3), INV_SIX as int);
    lemma_pmul_const(c[1], k * (k - 2) * (k - 3));
    lemma_pscale_twice(c[1], k * (k - 2) * (k - 3), INV_TWO as int);
    lemma_pmul_const(c[2], k * (k - 1) * (k - 3));
    lemma_pscale_twice(c[2], k * (k - 1) * (k - 3), INV_TWO as int);
    lemma_pmul_const(c[3], k * (k - 1) * (k - 2));
    lemma_pscale_twice(c[3], k * (k - 1) * (k - 2), INV_SIX as int);
}

/// The constants of the interpolation formulas, reduced.
proof fn lemma_node_constants()
    ensures
        fmod(0) == 0,
        fmod(1) == 1,
        fmod(-1) == q() - 1,
        fmod(2 * INV_TWO) == 1,
        fmod(-2 * INV_TWO) == q() - 1,
        fmod(6 * INV_SIX) == 1,
        fmod(-6 * INV_SIX) == q() - 1,
{
}

proof fn lemma_node2(c: Seq<(int, int)>, k: nat)
    requires
        c.len() == 4,
        forall|i: int| 0 <= i < 4 ==> #[trigger] preduced(c[i]),
        k < 2,
    ensures
        lagrange_slot(c, 2, pconst(k as int)) == c[k as int],
{
    assert(preduced(c[0]) && preduced(c[1]));
    lemma_node_constants();
    lemma_pair_basics(c[0]);
    lemma_pair_basics(c[1]);
    lemma_pmul_const(psub(c[1], c[0]), k as int);
    lemma_mod_add_sub(c[1].0, c[0].0);
    lemma_mod_add_sub(c[1].1, c[0].1);
    let d = psub(c[1], c[0]);
    assert(preduced(d));
    lemma_pscale_cases(d, k as int);
    if k == 1 {
        lemma_mod_add_sub(c[1].0 - c[0].0, c[0].0);
        lemma_mod_add_sub(c[1].1 - c[0].1, c[0].1);
        lemma_reduced_fixed(c[1].0);
        lemma_reduced_fixed(c[1].1);
    }
}

proof fn lemma_node3(c: Seq<(int, int)>, k: nat)
    requires
        c.len() == 4,
        forall|i: int| 0 <= i < 4 ==> #[trigger] preduced(c[i]),
        k < 3,
    ensures
        lagrange_slot(c, 3, pconst(k as int)) == c[k as int],
{
    assert(preduced(c[0]) && preduced(c[1]) && preduced(c[2]));
    lemma_node_constants();
    lemma_pair_basics(c[0]);
    lemma_pair_basics(c[1]);
    lemma_pair_basics(c[2]);
    if k == 0 {
        lemma_slot3(c, 0);
        lemma_pscale_cases(c[0], 2 * INV_TWO);
        lemma_pscale_cases(c[1], 0);
        lemma_pscale_cases(c[2], 0);
    } else if k == 1 {
        lemma_slot3(c, 1);
        lemma_pscale_cases(c[0], 0);
        lemma_pscale_cases(c[1], -1);
        lemma_pscale_cases(c[2], 0);
    } else {
        lemma_slot3(c, 2);
        lemma_pscale_cases(c[0], 0);
        lemma_pscale_cases(c[1], 0);
        lemma_pscale_cases(c[2], 2 * INV_TWO);
    }
}

proof fn lemma_node4(c: Seq<(int, int)>, k: nat)
    requires
        c.len() == 4,
        forall|i: int| 0 <= i < 4 ==> #[trigger] preduced(c[i]),
        k < 4,
    ensures
        lagrange_slot(c, 4, pconst(k as int)) == c[k as int],
{
    assert(preduced(c[0]) && preduced(c[1]) && preduced(c[2]) && preduced(c[3]));
    lemma_node_constants();
    lemma_pair_basics(c[0]);
    lemma_pair_basics(c[1]);
    lemma_pair_basics(c[2]);
    lemma_pair_basics(c[3]);
    if k == 0 {
        lemma_slot4(c, 0);
        lemma_pscale_cases(c[0], -6 * INV_SIX);
        lemma_pscale_cases(c[1], 0);
        lemma_pscale_cases(c[2], 0);
        lemma_pscale_cases(c[3], 0);
    } else if k == 1 {
        lemma_slot4(c, 1);
        lemma_pscale_cases(c[0], 0);
        lemma_pscale_cases(c[1], 2 * INV_TWO);
        lemma_pscale_cases(c[2], 0);
        lemma_pscale_cases(c[3], 0);
    } else if k == 2 {
        lemma_slot4(c, 2);
        lemma_pscale_cases(c[0], 0);
        lemma_pscale_cases(c[1], 0);
        lemma_pscale_cases(c[2], -2 * INV_TWO);
        lemma_pscale_cases(c[3], 0);
    } else {
        lemma_slot4(c, 3);
        lemma_pscale_cases(c[0], 0);
        lemma_pscale_cases(c[1], 0);
        lemma_pscale_cases(c[2], 0);
        lemma_pscale_cases(c[3], 6 * INV_SIX);
    }
}

/// At slot level: the interpolation through `c[0..n]` takes the value
/// `c[k]` at the node `k`.
proof fn lemma_slot_at_node(c: Seq<(int, int)>, n: nat, k: nat)
    requires
        c.len() == 4,
        forall|i: int| 0 <= i < 4 ==> #[trigger] preduced(c[i]),
        k < n <= 4,
    ensures
        lagrange_slot(c, n, pconst(k as int)) == c[k as int],
{
    if n == 2 {
        lemma_node2(c, k);
    } else if n == 3 {
        lemma_node3(c, k);
    } else if n == 4 {
        lemma_node4(c, k);
    }
}

/// Evaluating a round polynomial at one of its nodes gives back the
/// evaluation stored there: for `k < num_coefficients`, `P.at(k)` is the
/// `k`-th evaluation.
pub proof fn lemma_at_nodes<E: SumcheckElement>(p: &Polynomial<E>, k: nat)
    requires
        p.wf(),
        k < p.num_coefficients,
    ensures
        lagrange(
            p.evals(),
            p.num_coefficients as nat,
            sconst(E::width(), pconst(k as int)),
            E::width(),
        ) == p.evals()[k as int],
{
    let c = p.evals();
    let w = E::width();
    let n = p.num_coefficients as nat;
    let x = sconst(w, pconst(k as int));
    assert forall|i: int| 0 <= i < 4 implies #[trigger] c[i].len() == w && swf(c[i]) by {
        assert(elem_wf(&p.coefficients@[i]));
    }
    assert forall|j: int| 0 <= j < w implies #[trigger] lagrange(c, n, x, w)[j] == c[k as int][j] by {
        lemma_lagrange_slot(c, n, x, w, j);
        let s = slot_of(c, j);
        assert forall|i: int| 0 <= i < 4 implies #[trigger] preduced(s[i]) by {
            assert(swf(c[i]));
            assert(preduced(c[i][j]));
        }
        lemma_slot_at_node(s, n, k);
    }
    assert(lagrange(c, n, x, w).len() == w) by {
        if n >= 1 {
            assert(c[0].len() == w);
        }
    }
    assert(lagrange(c, n, x, w) =~= c[k as int]);
}

/// `ext_at` at one slot.
spec fn ext_slot(c: Seq<(int, int)>, k: nat, n: nat) -> (int, int)
    decreases n,
{
    if n < k || k == 0 || k > 3 {
        c[n as int]
    } else if k == 1 {
        ext_slot(c, k, (n - 1) as nat)
    } else if k == 2 {
        let e1 = ext_slot(c, k, (n - 1) as nat);
        psub(padd(e1, e1), ext_slot(c, k, (n - 2) as nat))
    } else {
        let e1 = ext_slot(c, k, (n - 1) as nat);
        let e2 = ext_slot(c, k, (n - 2) as nat);
        padd(psub(padd(padd(e1, e1), e1), padd(padd(e2, e2), e2)), ext_slot(c, k, (n - 3) as nat))
    }
}

proof fn lemma_ext_slot(c: Seq<Seq<(int, int)>>, k: nat, n: nat, w: nat, j: int)
    requires
        c.len() == 4,
        forall|i: int| 0 <= i < 4 ==> #[trigger] c[i].len() == w,
        0 <= j < w,
        n < 4,
    ensures
        ext_at(c, k, n).len() == w,
        ext_at(c, k, n)[j] == ext_slot(slot_of(c, j), k, n),
    decreases n,
{
    assert(c[n as int].len() == w);
    if !(n < k || k == 0 || k > 3) {
        lemma_ext_slot(c, k, (n - 1) as nat, w, j);
        if k >= 2 {
            lemma_ext_slot(c, k, (n - 2) as nat, w, j);
        }
        if k == 3 {
            lemma_ext_slot(c, k, (n - 3) as nat, w, j);
        }
    }
}

/// Sums, differences and scalings of reduced pairs reduce the exact result.
proof fn lemma_fp_ops(x: (int, int), y: (int, int), s: int)
    ensures
        padd(fmod_pair(x), fmod_pair(y)) == fmod_pair((x.0 + y.0, x.1 + y.1)),
        psub(fmod_pair(x), fmod_pair(y)) == fmod_pair((x.0 - y.0, x.1 - y.1)),
        pscale(fmod_pair(x), s) == fmod_pair((x.0 * s, x.1 * s)),
{
    lemma_mod_add_sub(x.0, y.0);
    lemma_mod_add_sub(x.1, y.1);
    lemma_mul_mod_noop_left(x.0, s, q());
    lemma_mul_mod_noop_left(x.1, s, q());
}

proof fn lemma_pscale_congr(c: (int, int), s: int, t: int)
    requires
        fmod(s) == fmod(t),
    ensures
        pscale(c, s) == pscale(c, t),
{
    lemma_mul_mod_noop_right(c.0, s, q());
    lemma_mul_mod_noop_right(c.1, s, q());
    lemma_mul_mod_noop_right(c.0, t, q());
    lemma_mul_mod_noop_right(c.1, t, q());
}

proof fn lemma_ext_linear(c: Seq<(int, int)>, n: nat)
    requires
        c.len() == 4,
        forall|i: int| 0 <= i < 4 ==> #[trigger] preduced(c[i]),
        1 <= n < 4,
    ensures
        ext_slot(c, 1, n) == lagrange_slot(c, 1, pconst(n as int)),
    decreases n,
{
    assert(ext_slot(c, 1, 0) == c[0]);
    if n > 1 {
        lemma_ext_linear(c, (n - 1) as nat);
    }
}

proof fn lemma_ext_affine(c: Seq<(int, int)>, n: nat)
    requires
        c.len() == 4,
        forall|i: int| 0 <= i < 4 ==> #[trigger] preduced(c[i]),
        2 <= n < 4,
    ensures
        ext_slot(c, 2, n) == lagrange_slot(c, 2, pconst(n as int)),
{
    let c0 = c[0];
    let c1 = c[1];
    assert(preduced(c0) && preduced(c1));
    lemma_fmod_pair_fixed(c0);
    lemma_fmod_pair_fixed(c1);
    assert(ext_slot(c, 2, 0) == c0);
    assert(ext_slot(c, 2, 1) == c1);
    let e2 = (c1.0 + c1.0 - c0.0, c1.1 + c1.1 - c0.1);
    assert(ext_slot(c, 2, 2) == fmod_pair(e2)) by {
        lemma_fp_ops(c1, c1, 0);
        lemma_fp_ops((c1.0 + c1.0, c1.1 + c1.1), c0, 0);
    }
    let d = (c1.0 - c0.0, c1.1 - c0.1);
    let dn = (d.0 * n, d.1 * n);
    assert(lagrange_slot(c, 2, pconst(n as int)) == fmod_pair((dn.0 + c0.0, dn.1 + c0.1))) by {
        lemma_fp_ops(c1, c0, 0);
        lemma_pmul_const(psub(c1, c0), n as int);
        lemma_fp_ops(d, c0, n as int);
        lemma_fp_ops(dn, c0, 0);
    }
    if n == 2 {
        assert(dn.0 + c0.0 == e2.0 && dn.1 + c0.1 == e2.1);
    } else {
        assert(ext_slot(c, 2, 3) == fmod_pair((e2.0 + e2.0 - c1.0, e2.1 + e2.1 - c1.1))) by {
            lemma_fp_ops(e2, e2, 0);
            lemma_fp_ops((e2.0 + e2.0, e2.1 + e2.1), c1, 0);
        }
        assert(dn.0 + c0.0 == e2.0 + e2.0 - c1.0 && dn.1 + c0.1 == e2.1 + e2.1 - c1.1);
    }
}

proof fn lemma_ext_quadratic(c: Seq<(int, int)>)
    requires
        c.len() == 4,
        forall|i: int| 0 <= i < 4 ==> #[trigger] preduced(c[i]),
    ensures
        ext_slot(c, 3, 3) == lagrange_slot(c, 3, pconst(3)),
{
    let c0 = c[0];
    let c1 = c[1];
    let c2 = c[2];
    assert(preduced(c0) && preduced(c1) && preduced(c2));
    lemma_fmod_pair_fixed(c0);
    lemma_fmod_pair_fixed(c1);
    lemma_fmod_pair_fixed(c2);
    lemma_node_constants();
    assert(ext_slot(c, 3, 0) == c0);
    assert(ext_slot(c, 3, 1) == c1);
    assert(ext_slot(c, 3, 2) == c2);
    // the extension: 3 c2 - 3 c1 + c0
    let c1x2 = (c1.0 + c1.0, c1.1 + c1.1);
    let c2x2 = (c2.0 + c2.0, c2.1 + c2.1);
    let c1x3 = (c1x2.0 + c1.0, c1x2.1 + c1.1);
    let c2x3 = (c2x2.0 + c2.0, c2x2.1 + c2.1);
    lemma_fp_ops(c1, c1, 0);
    lemma_fp_ops(c2, c2, 0);
    lemma_fp_ops(c1x2, c1, 0);
    lemma_fp_ops(c2x2, c2, 0);
    lemma_fp_ops(c2x3, c1x3, 0);
    let diff = (c2x3.0 - c1x3.0, c2x3.1 - c1x3.1);
    lemma_fp_ops(diff, c0, 0);
    // the interpolation at 3: c0 - 3 c1 + 3 c2
    lemma_slot3(c, 3);
    lemma_pscale_cases(c0, 2 * INV_TWO);
    assert(fmod(6 * INV_TWO) == fmod(3));
    lemma_pscale_congr(c2, 3 * 2 * INV_TWO, 3);
    lemma_fp_ops(c1, c0, 3);
    lemma_fp_ops(c2, c0, 3);
    let t1 = (c1.0 * 3, c1.1 * 3);
    let t2 = (c2.0 * 3, c2.1 * 3);
    lemma_fp_ops(c0, t1, 0);
    lemma_fp_ops((c0.0 - t1.0, c0.1 - t1.1), t2, 0);
    assert(c0.0 - t1.0 + t2.0 == diff.0 + c0.0 && c0.1 - t1.1 + t2.1 == diff.1 + c0.1);
}

/// At slot level: every extended entry is the interpolant's value at its node.
proof fn lemma_ext_slot_interpolates(c: Seq<(int, int)>, k: nat, n: nat)
    requires
        c.len() == 4,
        forall|i: int| 0 <= i < 4 ==> #[trigger] preduced(c[i]),
        1 <= k <= 4,
        n < 4,
    ensures
        ext_slot(c, k, n) == lagrange_slot(c, k, pconst(n as int)),
{
    if n < k {
        lemma_slot_at_node(c, k, n);
    } else if k == 1 {
        lemma_ext_linear(c, n);
    } else if k == 2 {
        lemma_ext_affine(c, n);
    } else {
        lemma_ext_quadratic(c);
    }
}

/// Extending the evaluations of a round polynomial by forward differences
/// (as `mul_poly_into`, `add_poly_in_place` and `sub_poly_in_place` do)
/// gives the values of the same polynomial at the new nodes: entry `n` of
/// the extension is `P.at(n)`.
pub proof fn lemma_extension_interpolates<E: SumcheckElement>(p: &Polynomial<E>, n: nat)
    requires
        p.wf(),
        n < 4,
    ensures
        ext_at(padded_evals(*p, p.num_coefficients as nat), p.num_coefficients as nat, n)
            == lagrange(
            p.evals(),
            p.num_coefficients as nat,
            sconst(E::width(), pconst(n as int)),
            E::width(),
        ),
{
    let c = p.evals();
    let d = p.num_coefficients as nat;
    let pc = padded_evals(*p, d);
    let w = E::width();
    let x = sconst(w, pconst(n as int));
    assert forall|i: int| 0 <= i < 4 implies #[trigger] c[i].len() == w && swf(c[i]) by {
        assert(elem_wf(&p.coefficients@[i]));
    }
    assert forall|i: int| 0 <= i < 4 implies #[trigger] pc[i].len() == w by {
        assert(c[i].len() == w);
    }
    E::lemma_width_positive();
    lemma_ext_slot(pc, d, n, w, 0);
    if d == 0 {
        assert(ext_at(pc, d, n) =~= lagrange(c, d, x, w));
    } else {
        assert forall|j: int| 0 <= j < w implies #[trigger] ext_at(pc, d, n)[j] == lagrange(
            c,
            d,
            x,
            w,
        )[j] by {
            lemma_ext_slot(pc, d, n, w, j);
            lemma_lagrange_slot(c, d, x, w, j);
            let s = slot_of(c, j);
            let ps = slot_of(pc, j);
            assert forall|i: int| 0 <= i < 4 implies #[trigger] preduced(s[i]) by {
                assert(swf(c[i]));
                assert(preduced(c[i][j]));
            }
            lemma_ext_slot_interpolates(s, d, n);
            assert forall|i: int| 0 <= i < d implies #[trigger] ps[i] == s[i] by {}
            lemma_ext_slot_agree(ps, s, d, n);
        }
        assert(lagrange(c, d, x, w).len() == w) by {
            assert(c[0].len() == w);
        }
        assert(ext_at(pc, d, n) =~= lagrange(c, d, x, w));
    }
}

/// What `mul_poly_into` stores at node `i` is the product of the two
/// factors' values there: `(P0 * P1)(i) = P0.at(i) * P1.at(i)`.
pub proof fn lemma_product_at_nodes<E: SumcheckElement>(
    p0: &Polynomial<E>,
    p1: &Polynomial<E>,
    i: nat,
)
    requires
        p0.wf(),
        p1.wf(),
        i + 1 < p0.num_coefficients + p1.num_coefficients <= 5,
    ensures
        ({
            let m = (p0.num_coefficients + p1.num_coefficients - 1) as nat;
            let node = sconst(E::width(), pconst(i as int));
            smul(
                extended(padded_evals(*p0, p0.num_coefficients as nat), p0.num_coefficients as nat, m)[i as int],
                extended(padded_evals(*p1, p1.num_coefficients as nat), p1.num_coefficients as nat, m)[i as int],
            ) == smul(
                lagrange(p0.evals(), p0.num_coefficients as nat, node, E::width()),
                lagrange(p1.evals(), p1.num_coefficients as nat, node, E::width()),
            )
        }),
{
    lemma_extension_interpolates(p0, i);
    lemma_extension_interpolates(p1, i);
}

/// The extension reads only the entries below `k`.
proof fn lemma_ext_slot_agree(a: Seq<(int, int)>, b: Seq<(int, int)>, k: nat, n: nat)
    requires
        forall|i: int| 0 <= i < k ==> #[trigger] a[i] == b[i],
        1 <= k,
        n < 4,
    ensures
        ext_slot(a, k, n) == ext_slot(b, k, n),
    decreases n,
{
    if k <= 3 && n >= k {
        lemma_ext_slot_agree(a, b, k, (n - 1) as nat);
        if n >= 2 {
            lemma_ext_slot_agree(a, b, k, (n - 2) as nat);
        }
        if n >= 3 {
            lemma_ext_slot_agree(a, b, k, (n - 3) as nat);
        }
    }
}

} // verus!
