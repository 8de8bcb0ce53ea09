//! The algebra of the quadratic extension `F_q[i]/(i^2 + 1)` on pairs of
//! integers, and its slot-wise lift to sequences (the split ring).
use vstd::prelude::*;
use vstd::arithmetic::div_mod::*;
use vstd::arithmetic::mul::*;
use crate::common::field::{fmod, q, reduced};

verus! {

/// Sum of two extension elements.
pub open spec fn padd(a: (int, int), b: (int, int)) -> (int, int) {
    (fmod(a.0 + b.0), fmod(a.1 + b.1))
}

/// Difference of two extension elements.
pub open spec fn psub(a: (int, int), b: (int, int)) -> (int, int) {
    (fmod(a.0 - b.0), fmod(a.1 - b.1))
}

/// Product of two extension elements, with `i^2 = -1`.
pub open spec fn pmul(a: (int, int), b: (int, int)) -> (int, int) {
    (fmod(a.0 * b.0 - a.1 * b.1), fmod(a.0 * b.1 + a.1 * b.0))
}

/// Both components are canonical representatives.
pub open spec fn preduced(a: (int, int)) -> bool {
    reduced(a.0) && reduced(a.1)
}

/// The embedding of an integer into the extension.
pub open spec fn pconst(c: int) -> (int, int) {
    (fmod(c), 0)
}

/// Slot-wise sum.
pub open spec fn sadd(a: Seq<(int, int)>, b: Seq<(int, int)>) -> Seq<(int, int)> {
    Seq::new(a.len(), |j: int| padd(a[j], b[j]))
}

/// Slot-wise difference.
pub open spec fn ssub(a: Seq<(int, int)>, b: Seq<(int, int)>) -> Seq<(int, int)> {
    Seq::new(a.len(), |j: int| psub(a[j], b[j]))
}

/// Slot-wise product.
pub open spec fn smul(a: Seq<(int, int)>, b: Seq<(int, int)>) -> Seq<(int, int)> {
    Seq::new(a.len(), |j: int| pmul(a[j], b[j]))
}

/// The same value in each of `n` slots.
pub open spec fn sconst(n: nat, c: (int, int)) -> Seq<(int, int)> {
    Seq::new(n, |j: int| c)
}

/// Every slot is canonical.
pub open spec fn swf(a: Seq<(int, int)>) -> bool {
    forall|j: int| 0 <= j < a.len() ==> #[trigger] preduced(a[j])
}

/// Reduction commutes with a linear combination.
pub proof fn lemma_mod_lin(x: int, y: int, a: int, b: int)
    ensures
        fmod(fmod(x) * a + fmod(y) * b) == fmod(x * a + y * b),
        fmod(a * fmod(x) + b * fmod(y)) == fmod(a * x + b * y),
{
    lemma_mul_mod_noop_left(x, a, q());
    lemma_mul_mod_noop_left(y, b, q());
    lemma_add_mod_noop(fmod(x) * a, fmod(y) * b, q());
    lemma_add_mod_noop(x * a, y * b, q());
    lemma_mul_is_commutative(a, fmod(x));
    lemma_mul_is_commutative(b, fmod(y));
    lemma_mul_is_commutative(a, x);
    lemma_mul_is_commutative(b, y);
}

/// Reduction commutes with sums and differences.
pub proof fn lemma_mod_add_sub(x: int, y: int)
    ensures
        fmod(fmod(x) + fmod(y)) == fmod(x + y),
        fmod(fmod(x) - fmod(y)) == fmod(x - y),
        fmod(fmod(x) + y) == fmod(x + y),
        fmod(x + fmod(y)) == fmod(x + y),
        fmod(fmod(x) - y) == fmod(x - y),
        fmod(x - fmod(y)) == fmod(x - y),
        fmod(fmod(x)) == fmod(x),
        reduced(fmod(x)),
{
    lemma_add_mod_noop(x, y, q());
    lemma_sub_mod_noop(x, y, q());
    lemma_mod_twice(x, q());
    lemma_mod_twice(y, q());
    lemma_add_mod_noop(fmod(x), y, q());
    lemma_add_mod_noop(x, fmod(y), q());
    lemma_sub_mod_noop(fmod(x), y, q());
    lemma_sub_mod_noop(x, fmod(y), q());
    lemma_mod_bound(x, q());
}

/// A canonical value is its own reduction.
pub proof fn lemma_reduced_fixed(x: int)
    requires
        reduced(x),
    ensures
        fmod(x) == x,
{
    lemma_small_mod(x as nat, q() as nat);
}

/// The extension operations return canonical pairs.
pub proof fn lemma_pops_reduced(a: (int, int), b: (int, int))
    ensures
        preduced(padd(a, b)),
        preduced(psub(a, b)),
        preduced(pmul(a, b)),
{
    lemma_mod_bound(a.0 + b.0, q());
    lemma_mod_bound(a.1 + b.1, q());
    lemma_mod_bound(a.0 - b.0, q());
    lemma_mod_bound(a.1 - b.1, q());
    lemma_mod_bound(a.0 * b.0 - a.1 * b.1, q());
    lemma_mod_bound(a.0 * b.1 + a.1 * b.0, q());
}

proof fn lemma_assoc_identity(a0: int, a1: int, b0: int, b1: int, c0: int, c1: int)
    ensures
        (a0 * b0 - a1 * b1) * c0 + (a0 * b1 + a1 * b0) * (-c1)
            == (b0 * c0 - b1 * c1) * a0 + (b0 * c1 + b1 * c0) * (-a1),
        (a0 * b0 - a1 * b1) * c1 + (a0 * b1 + a1 * b0) * c0
            == (b0 * c0 - b1 * c1) * a1 + (b0 * c1 + b1 * c0) * a0,
{
    assert((a0 * b0 - a1 * b1) * c0 == a0 * b0 * c0 - a1 * b1 * c0) by (nonlinear_arith);
    assert((a0 * b1 + a1 * b0) * (-c1) == -(a0 * b1 * c1) - a1 * b0 * c1) by (nonlinear_arith);
    assert((b0 * c0 - b1 * c1) * a0 == a0 * b0 * c0 - a0 * b1 * c1) by (nonlinear_arith);
    assert((b0 * c1 + b1 * c0) * (-a1) == -(a1 * b0 * c1) - a1 * b1 * c0) by (nonlinear_arith);
    assert((a0 * b0 - a1 * b1) * c1 == a0 * b0 * c1 - a1 * b1 * c1) by (nonlinear_arith);
    assert((a0 * b1 + a1 * b0) * c0 == a0 * b1 * c0 + a1 * b0 * c0) by (nonlinear_arith);
    assert((b0 * c0 - b1 * c1) * a1 == a1 * b0 * c0 - a1 * b1 * c1) by (nonlinear_arith);
    assert((b0 * c1 + b1 * c0) * a0 == a0 * b0 * c1 + a0 * b1 * c0) by (nonlinear_arith);
}

proof fn lemma_distrib_sub_identity(a0: int, a1: int, b0: int, b1: int, c0: int, c1: int)
    by (nonlinear_arith)
    ensures
        (b0 - c0) * a0 + (b1 - c1) * (-a1) == (a0 * b0 - a1 * b1) - (a0 * c0 - a1 * c1),
        (b0 - c0) * a1 + (b1 - c1) * a0 == (a0 * b1 + a1 * b0) - (a0 * c1 + a1 * c0),
{
}

proof fn lemma_distrib_identity(a0: int, a1: int, b0: int, b1: int, c0: int, c1: int)
    by (nonlinear_arith)
    ensures
        (b0 + c0) * a0 + (b1 + c1) * (-a1) == (a0 * b0 - a1 * b1) + (a0 * c0 - a1 * c1),
        (b0 + c0) * a1 + (b1 + c1) * a0 == (a0 * b1 + a1 * b0) + (a0 * c1 + a1 * c0),
{
}

/// Addition is commutative and associative, with zero as its identity.
pub proof fn lemma_padd_laws(a: (int, int), b: (int, int), c: (int, int))
    requires
        preduced(a),
    ensures
        padd(a, b) == padd(b, a),
        padd(padd(a, b), c) == padd(a, padd(b, c)),
        padd(a, (0, 0)) == a,
        psub(a, (0, 0)) == a,
        psub(padd(b, a), a) == fmod_pair(b),
        padd(psub(b, a), a) == fmod_pair(b),
{
    lemma_reduced_fixed(a.0);
    lemma_reduced_fixed(a.1);
    lemma_mod_add_sub(a.0 + b.0, c.0);
    lemma_mod_add_sub(a.1 + b.1, c.1);
    lemma_mod_add_sub(a.0, b.0 + c.0);
    lemma_mod_add_sub(a.1, b.1 + c.1);
    lemma_mod_add_sub(b.0 + a.0, a.0);
    lemma_mod_add_sub(b.1 + a.1, a.1);
    lemma_mod_add_sub(b.0 - a.0, a.0);
    lemma_mod_add_sub(b.1 - a.1, a.1);
    assert(b.0 + a.0 - a.0 == b.0);
    assert(b.0 - a.0 + a.0 == b.0);
    assert(b.1 + a.1 - a.1 == b.1);
    assert(b.1 - a.1 + a.1 == b.1);
}

/// Component-wise reduction of a pair.
pub open spec fn fmod_pair(a: (int, int)) -> (int, int) {
    (fmod(a.0), fmod(a.1))
}

/// A canonical pair is its own reduction.
pub proof fn lemma_fmod_pair_fixed(a: (int, int))
    requires
        preduced(a),
    ensures
        fmod_pair(a) == a,
{
    lemma_reduced_fixed(a.0);
    lemma_reduced_fixed(a.1);
}

/// Multiplication is commutative and associative, distributes over sums and
/// differences, and has one as its identity and zero as its annihilator.
pub proof fn lemma_pmul_laws(a: (int, int), b: (int, int), c: (int, int))
    requires
        preduced(a),
    ensures
        pmul(a, b) == pmul(b, a),
        pmul(pmul(a, b), c) == pmul(a, pmul(b, c)),
        pmul(a, padd(b, c)) == padd(pmul(a, b), pmul(a, c)),
        pmul(a, psub(b, c)) == psub(pmul(a, b), pmul(a, c)),
        pmul(a, (1, 0)) == a,
        pmul(a, (0, 0)) == (0int, 0int),
{
    lemma_reduced_fixed(a.0);
    lemma_reduced_fixed(a.1);
    // commutativity
    assert(a.0 * b.0 - a.1 * b.1 == b.0 * a.0 - b.1 * a.1) by (nonlinear_arith);
    assert(a.0 * b.1 + a.1 * b.0 == b.0 * a.1 + b.1 * a.0) by (nonlinear_arith);
    // associativity
    let ab = (a.0 * b.0 - a.1 * b.1, a.0 * b.1 + a.1 * b.0);
    let bc = (b.0 * c.0 - b.1 * c.1, b.0 * c.1 + b.1 * c.0);
    lemma_mod_lin(ab.0, ab.1, c.0, -c.1);
    lemma_mod_lin(ab.0, ab.1, c.1, c.0);
    lemma_mod_lin(bc.0, bc.1, a.0, -a.1);
    lemma_mod_lin(bc.0, bc.1, a.1, a.0);
    assert(fmod(ab.0) * c.0 - fmod(ab.1) * c.1 == fmod(ab.0) * c.0 + fmod(ab.1) * (-c.1))
        by (nonlinear_arith);
    assert(ab.0 * c.0 - ab.1 * c.1 == ab.0 * c.0 + ab.1 * (-c.1)) by (nonlinear_arith);
    assert(a.0 * fmod(bc.0) - a.1 * fmod(bc.1) == fmod(bc.0) * a.0 + fmod(bc.1) * (-a.1))
        by (nonlinear_arith);
    assert(a.0 * fmod(bc.1) + a.1 * fmod(bc.0) == fmod(bc.0) * a.1 + fmod(bc.1) * a.0)
        by (nonlinear_arith);
    lemma_assoc_identity(a.0, a.1, b.0, b.1, c.0, c.1);
    // distributivity over sums
    let s = (b.0 + c.0, b.1 + c.1);
    lemma_mod_lin(s.0, s.1, a.0, -a.1);
    lemma_mod_lin(s.0, s.1, a.1, a.0);
    assert(a.0 * fmod(s.0) - a.1 * fmod(s.1) == fmod(s.0) * a.0 + fmod(s.1) * (-a.1))
        by (nonlinear_arith);
    assert(a.0 * fmod(s.1) + a.1 * fmod(s.0) == fmod(s.0) * a.1 + fmod(s.1) * a.0)
        by (nonlinear_arith);
    lemma_distrib_identity(a.0, a.1, b.0, b.1, c.0, c.1);
    lemma_mod_add_sub(a.0 * b.0 - a.1 * b.1, a.0 * c.0 - a.1 * c.1);
    lemma_mod_add_sub(a.0 * b.1 + a.1 * b.0, a.0 * c.1 + a.1 * c.0);
    // distributivity over differences
    let d = (b.0 - c.0, b.1 - c.1);
    lemma_mod_lin(d.0, d.1, a.0, -a.1);
    lemma_mod_lin(d.0, d.1, a.1, a.0);
    assert(a.0 * fmod(d.0) - a.1 * fmod(d.1) == fmod(d.0) * a.0 + fmod(d.1) * (-a.1))
        by (nonlinear_arith);
    assert(a.0 * fmod(d.1) + a.1 * fmod(d.0) == fmod(d.0) * a.1 + fmod(d.1) * a.0)
        by (nonlinear_arith);
    lemma_distrib_sub_identity(a.0, a.1, b.0, b.1, c.0, c.1);
    lemma_mod_add_sub(a.0 * b.0 - a.1 * b.1, a.0 * c.0 - a.1 * c.1);
    lemma_mod_add_sub(a.0 * b.1 + a.1 * b.0, a.0 * c.1 + a.1 * c.0);
    // identities
    assert(a.0 * 1 - a.1 * 0 == a.0) by (nonlinear_arith);
    assert(a.0 * 0 + a.1 * 1 == a.1) by (nonlinear_arith);
    assert(a.0 * 0 - a.1 * 0 == 0) by (nonlinear_arith);
    assert(a.0 * 0 + a.1 * 0 == 0) by (nonlinear_arith);
}

} // verus!

verus! {

/// The slot-wise operations keep every slot canonical.
pub proof fn lemma_sops_wf(a: Seq<(int, int)>, b: Seq<(int, int)>)
    ensures
        swf(sadd(a, b)),
        swf(ssub(a, b)),
        swf(smul(a, b)),
        sadd(a, b).len() == a.len(),
        ssub(a, b).len() == a.len(),
        smul(a, b).len() == a.len(),
{
    assert forall|j: int| 0 <= j < a.len() implies #[trigger] preduced(sadd(a, b)[j]) && preduced(
        ssub(a, b)[j],
    ) && preduced(smul(a, b)[j]) by {
        lemma_pops_reduced(a[j], b[j]);
    }
}

proof fn lemma_laws_at(a: Seq<(int, int)>, b: Seq<(int, int)>, c: Seq<(int, int)>, j: int)
    requires
        swf(a),
        swf(b),
        swf(c),
        b.len() == a.len(),
        c.len() == a.len(),
        0 <= j < a.len(),
    ensures
        padd(a[j], b[j]) == padd(b[j], a[j]),
        padd(padd(a[j], b[j]), c[j]) == padd(a[j], padd(b[j], c[j])),
        pmul(a[j], b[j]) == pmul(b[j], a[j]),
        pmul(pmul(a[j], b[j]), c[j]) == pmul(a[j], pmul(b[j], c[j])),
        pmul(a[j], padd(b[j], c[j])) == padd(pmul(a[j], b[j]), pmul(a[j], c[j])),
        pmul(a[j], psub(b[j], c[j])) == psub(pmul(a[j], b[j]), pmul(a[j], c[j])),
        padd(a[j], (0, 0)) == a[j],
        psub(a[j], (0, 0)) == a[j],
        pmul(a[j], (1, 0)) == a[j],
        pmul(a[j], (0, 0)) == (0int, 0int),
        psub(padd(b[j], a[j]), a[j]) == b[j],
        padd(psub(b[j], a[j]), a[j]) == b[j],
{
    assert(preduced(a[j]));
    assert(preduced(b[j]));
    assert(preduced(c[j]));
    lemma_padd_laws(a[j], b[j], c[j]);
    lemma_padd_laws(b[j], a[j], c[j]);
    lemma_pmul_laws(a[j], b[j], c[j]);
    lemma_fmod_pair_fixed(b[j]);
}

/// The ring laws, slot by slot, for well-formed sequences of one length.
pub proof fn lemma_seq_laws(a: Seq<(int, int)>, b: Seq<(int, int)>, c: Seq<(int, int)>)
    requires
        swf(a),
        swf(b),
        swf(c),
        b.len() == a.len(),
        c.len() == a.len(),
    ensures
        sadd(a, b) == sadd(b, a),
        sadd(sadd(a, b), c) == sadd(a, sadd(b, c)),
        smul(a, b) == smul(b, a),
        smul(smul(a, b), c) == smul(a, smul(b, c)),
        smul(a, sadd(b, c)) == sadd(smul(a, b), smul(a, c)),
        smul(a, ssub(b, c)) == ssub(smul(a, b), smul(a, c)),
        sadd(a, sconst(a.len(), (0, 0))) == a,
        ssub(a, sconst(a.len(), (0, 0))) == a,
        smul(a, sconst(a.len(), (1, 0))) == a,
        smul(a, sconst(a.len(), (0, 0))) == sconst(a.len(), (0, 0)),
        ssub(sadd(b, a), a) == b,
        sadd(ssub(b, a), a) == b,
{
    assert forall|j: int| 0 <= j < a.len() implies #[trigger] sadd(a, b)[j] == sadd(b, a)[j] by {
        lemma_laws_at(a, b, c, j);
    }
    assert(sadd(a, b) =~= sadd(b, a));
    assert forall|j: int| 0 <= j < a.len() implies #[trigger] sadd(sadd(a, b), c)[j] == sadd(a, sadd(b, c))[j] by {
        lemma_laws_at(a, b, c, j);
    }
    assert(sadd(sadd(a, b), c) =~= sadd(a, sadd(b, c)));
    assert forall|j: int| 0 <= j < a.len() implies #[trigger] smul(a, b)[j] == smul(b, a)[j] by {
        lemma_laws_at(a, b, c, j);
    }
    assert(smul(a, b) =~= smul(b, a));
    assert forall|j: int| 0 <= j < a.len() implies #[trigger] smul(smul(a, b), c)[j] == smul(a, smul(b, c))[j] by {
        lemma_laws_at(a, b, c, j);
    }
    assert(smul(smul(a, b), c) =~= smul(a, smul(b, c)));
    assert forall|j: int| 0 <= j < a.len() implies #[trigger] smul(a, sadd(b, c))[j] == sadd(smul(a, b), smul(a, c))[j] by {
        lemma_laws_at(a, b, c, j);
    }
    assert(smul(a, sadd(b, c)) =~= sadd(smul(a, b), smul(a, c)));
    assert forall|j: int| 0 <= j < a.len() implies #[trigger] smul(a, ssub(b, c))[j] == ssub(smul(a, b), smul(a, c))[j] by {
        lemma_laws_at(a, b, c, j);
    }
    assert(smul(a, ssub(b, c)) =~= ssub(smul(a, b), smul(a, c)));
    assert forall|j: int| 0 <= j < a.len() implies #[trigger] sadd(a, sconst(a.len(), (0, 0)))[j] == a[j] by {
        lemma_laws_at(a, b, c, j);
    }
    assert(sadd(a, sconst(a.len(), (0, 0))) =~= a);
    assert forall|j: int| 0 <= j < a.len() implies #[trigger] ssub(a, sconst(a.len(), (0, 0)))[j] == a[j] by {
        lemma_laws_at(a, b, c, j);
    }
    assert(ssub(a, sconst(a.len(), (0, 0))) =~= a);
    assert forall|j: int| 0 <= j < a.len() implies #[trigger] smul(a, sconst(a.len(), (1, 0)))[j] == a[j] by {
        lemma_laws_at(a, b, c, j);
    }
    assert(smul(a, sconst(a.len(), (1, 0))) =~= a);
    assert forall|j: int| 0 <= j < a.len() implies #[trigger] smul(a, sconst(a.len(), (0, 0)))[j] == sconst(a.len(), (0, 0))[j] by {
        lemma_laws_at(a, b, c, j);
    }
    assert(smul(a, sconst(a.len(), (0, 0))) =~= sconst(a.len(), (0, 0)));
    assert forall|j: int| 0 <= j < a.len() implies #[trigger] ssub(sadd(b, a), a)[j] == b[j] by {
        lemma_laws_at(a, b, c, j);
    }
    assert(ssub(sadd(b, a), a) =~= b);
    assert forall|j: int| 0 <= j < a.len() implies #[trigger] sadd(ssub(b, a), a)[j] == b[j] by {
        lemma_laws_at(a, b, c, j);
    }
    assert(sadd(ssub(b, a), a) =~= b);
}

/// Constant sequences are canonical when their value is.
pub proof fn lemma_sconst_wf(n: nat, c: (int, int))
    requires
        preduced(c),
    ensures
        swf(sconst(n, c)),
        sconst(n, c).len() == n,
{
}

} // verus!
