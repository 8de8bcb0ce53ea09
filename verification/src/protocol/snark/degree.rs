//! Structural validation of claims: the degree of a claim's round polynomial
//! in each cube variable. A product adds the degrees of its factors, a sum or
//! difference takes the larger, and each round polynomial carries degree at
//! most three.
use vstd::prelude::*;
use vstd::arithmetic::power2::pow2;
use crate::common::bits::pow2_usize;
use crate::common::ring_arithmetic::RingElement;
use crate::protocol::snark::lowering::{ClaimExpr, ClaimFactor, PublicFactor, SnarkClaim, Weights};

verus! {

/// The variables `[lo, hi)` a public weight depends on.
pub open spec fn support(pf: PublicFactor, total: nat) -> (int, int) {
    match pf.weights {
        Weights::Selector { length, .. } => (0, length as int),
        _ => (pf.prefix_len as int, total - pf.suffix_len),
    }
}

/// The weight fits the cube: a selector's length and value fit its leading
/// variables, and a placed weight leaves room for its middle.
pub open spec fn support_ok(pf: PublicFactor, total: nat) -> bool {
    match pf.weights {
        Weights::Selector { bits, length } => length <= total && (length == 0 || bits < pow2(
            length as nat,
        )),
        _ => pf.prefix_len + pf.suffix_len <= total,
    }
}

/// The expression has no witness segments (canonical form lowers them) and
/// each public weight fits the cube.
pub open spec fn degree_ok(e: ClaimExpr, total: nat) -> bool
    decreases e,
{
    match e {
        ClaimExpr::Factor(ClaimFactor::Witness) => true,
        ClaimExpr::Factor(ClaimFactor::ConjWitness) => true,
        ClaimExpr::Factor(ClaimFactor::Public(pf)) => support_ok(pf, total),
        ClaimExpr::Factor(_) => false,
        ClaimExpr::Constant(_) => true,
        ClaimExpr::Scale(_, x) => degree_ok(*x, total),
        ClaimExpr::Product(a, b) => degree_ok(*a, total) && degree_ok(*b, total),
        ClaimExpr::Sum(a, b) => degree_ok(*a, total) && degree_ok(*b, total),
        ClaimExpr::Diff(a, b) => degree_ok(*a, total) && degree_ok(*b, total),
    }
}

/// The number of factors of `e` that depend on variable `v`: its degree in
/// that variable.
pub open spec fn degree_at(e: ClaimExpr, total: nat, v: int) -> nat
    decreases e,
{
    match e {
        ClaimExpr::Factor(ClaimFactor::Witness) => 1,
        ClaimExpr::Factor(ClaimFactor::ConjWitness) => 1,
        ClaimExpr::Factor(ClaimFactor::Public(pf)) => if support(pf, total).0 <= v < support(
            pf,
            total,
        ).1 {
            1
        } else {
            0
        },
        ClaimExpr::Factor(_) => 0,
        ClaimExpr::Constant(_) => 0,
        ClaimExpr::Scale(_, x) => degree_at(*x, total, v),
        ClaimExpr::Product(a, b) => degree_at(*a, total, v) + degree_at(*b, total, v),
        ClaimExpr::Sum(a, b) => max_nat(degree_at(*a, total, v), degree_at(*b, total, v)),
        ClaimExpr::Diff(a, b) => max_nat(degree_at(*a, total, v), degree_at(*b, total, v)),
    }
}

/// How the structural check and the degrees combine: a sum, a difference or a
/// product of two claims passes exactly when both parts pass, a scaled claim
/// exactly when the claim does, and a difference has the same structure and
/// the same degrees as the sum of the same parts. A product's degree in a
/// variable adds its factors' degrees; a sum's or a difference's is the
/// larger of its parts'.
pub proof fn lemma_combined_claims(a: ClaimExpr, b: ClaimExpr, c: RingElement, total: nat, v: int)
    ensures
        degree_ok(ClaimExpr::Sum(Box::new(a), Box::new(b)), total) == (degree_ok(a, total)
            && degree_ok(b, total)),
        degree_ok(ClaimExpr::Diff(Box::new(a), Box::new(b)), total) == (degree_ok(a, total)
            && degree_ok(b, total)),
        degree_ok(ClaimExpr::Product(Box::new(a), Box::new(b)), total) == (degree_ok(a, total)
            && degree_ok(b, total)),
        degree_ok(ClaimExpr::Scale(c, Box::new(a)), total) == degree_ok(a, total),
        degree_ok(ClaimExpr::Diff(Box::new(a), Box::new(b)), total) == degree_ok(
            ClaimExpr::Sum(Box::new(a), Box::new(b)),
            total,
        ),
        degree_at(ClaimExpr::Diff(Box::new(a), Box::new(b)), total, v) == degree_at(
            ClaimExpr::Sum(Box::new(a), Box::new(b)),
            total,
            v,
        ),
        degree_at(ClaimExpr::Sum(Box::new(a), Box::new(b)), total, v) >= degree_at(a, total, v),
        degree_at(ClaimExpr::Sum(Box::new(a), Box::new(b)), total, v) >= degree_at(b, total, v),
        degree_at(ClaimExpr::Sum(Box::new(a), Box::new(b)), total, v) == degree_at(a, total, v)
            || degree_at(ClaimExpr::Sum(Box::new(a), Box::new(b)), total, v) == degree_at(
            b,
            total,
            v,
        ),
        degree_at(ClaimExpr::Product(Box::new(a), Box::new(b)), total, v) == degree_at(a, total, v)
            + degree_at(b, total, v),
        degree_at(ClaimExpr::Scale(c, Box::new(a)), total, v) == degree_at(a, total, v),
{
}

/// The leaves the structural check accepts: the witness, its conjugate and
/// constants always; a public weight exactly when it fits the cube; a
/// witness segment never (the canonical form lowers segments first). Each
/// witness leaf has degree one in every variable, a constant degree zero.
pub proof fn lemma_leaf_claims(c: RingElement, p: crate::protocol::commitment::Prefix, pf: PublicFactor, total: nat, v: int)
    ensures
        degree_ok(ClaimExpr::Factor(ClaimFactor::Witness), total),
        degree_ok(ClaimExpr::Factor(ClaimFactor::ConjWitness), total),
        degree_ok(ClaimExpr::Constant(c), total),
        !degree_ok(ClaimExpr::Factor(ClaimFactor::WitnessSegment(p)), total),
        !degree_ok(ClaimExpr::Factor(ClaimFactor::ConjWitnessSegment(p)), total),
        degree_ok(ClaimExpr::Factor(ClaimFactor::Public(pf)), total) == support_ok(pf, total),
        degree_at(ClaimExpr::Factor(ClaimFactor::Witness), total, v) == 1,
        degree_at(ClaimExpr::Factor(ClaimFactor::ConjWitness), total, v) == 1,
        degree_at(ClaimExpr::Constant(c), total, v) == 0,
{
}

/// When a public weight fits the cube: a selector over the leading `length`
/// variables fits when those variables exist and its value has at most
/// `length` bits (any value when `length` is zero); a table or tensor placed
/// between `prefix_len` leading and `suffix_len` trailing constant
/// variables fits when those leave the middle non-negative. A selector
/// depends on its `length` leading variables, a placed weight on its middle.
pub proof fn lemma_public_fits(pf: PublicFactor, total: nat, v: int)
    ensures
        pf.weights matches Weights::Selector { bits, length } ==> (support_ok(pf, total) <==> (
        length <= total && (length == 0 || bits < pow2(length as nat))))
            && (degree_at(ClaimExpr::Factor(ClaimFactor::Public(pf)), total, v) == if 0 <= v
            < length {
            1nat
        } else {
            0nat
        }),
        !(pf.weights is Selector) ==> (support_ok(pf, total) <==> pf.prefix_len + pf.suffix_len
            <= total) && (degree_at(ClaimExpr::Factor(ClaimFactor::Public(pf)), total, v) == if pf.prefix_len
            <= v < total - pf.suffix_len {
            1nat
        } else {
            0nat
        }),
{
}

pub open spec fn max_nat(a: nat, b: nat) -> nat {
    if a >= b {
        a
    } else {
        b
    }
}


/// The variables a public weight depends on, as `(lo, hi)`.
fn public_support(pf: &PublicFactor, total_vars: usize) -> (r: (usize, usize))
    requires
        support_ok(*pf, total_vars as nat),
    ensures
        r.0 as int == support(*pf, total_vars as nat).0,
        r.1 as int == support(*pf, total_vars as nat).1,
        r.0 <= r.1 <= total_vars,
{
    match &pf.weights {
        Weights::Selector { length, .. } => (0, *length),
        _ => (pf.prefix_len, total_vars - pf.suffix_len),
    }
}


/// Whether every public weight of `expr` fits the cube and no witness
/// segment is left: the check [`validate_claims`] relies on.
pub fn fits_cube(expr: &ClaimExpr, total_vars: usize) -> (r: bool)
    requires
        pow2(total_vars as nat) <= usize::MAX,
    ensures
        r == degree_ok(*expr, total_vars as nat),
    decreases expr,
{
    match expr {
        ClaimExpr::Factor(ClaimFactor::Witness) | ClaimExpr::Factor(ClaimFactor::ConjWitness) => true,
        ClaimExpr::Factor(ClaimFactor::Public(pf)) => match &pf.weights {
            Weights::Selector { bits, length } => {
                if *length > total_vars {
                    false
                } else if *length == 0 {
                    true
                } else {
                    proof {
                        if *length < total_vars {
                            vstd::arithmetic::power2::lemma_pow2_strictly_increases(
                                *length as nat,
                                total_vars as nat,
                            );
                        }
                    }
                    *bits < pow2_usize(*length)
                }
            },
            _ => pf.prefix_len <= total_vars && pf.suffix_len <= total_vars - pf.prefix_len,
        },
        ClaimExpr::Factor(_) => false,
        ClaimExpr::Constant(_) => true,
        ClaimExpr::Scale(_, x) => fits_cube(x, total_vars),
        ClaimExpr::Product(a, b) => fits_cube(a, total_vars) && fits_cube(b, total_vars),
        ClaimExpr::Sum(a, b) => fits_cube(a, total_vars) && fits_cube(b, total_vars),
        ClaimExpr::Diff(a, b) => fits_cube(a, total_vars) && fits_cube(b, total_vars),
    }
}

/// A degree, counted up to four: degrees above three all read four.
pub open spec fn capped(d: nat) -> nat {
    if d > 4 {
        4
    } else {
        d
    }
}

/// The degree of `expr` in each of the `total_vars` variables, counted up to
/// four.
fn expr_degree(expr: &ClaimExpr, total_vars: usize) -> (r: Vec<usize>)
    requires
        degree_ok(*expr, total_vars as nat),
    ensures
        r@.len() == total_vars,
        forall|v: int| 0 <= v < total_vars ==> #[trigger] r@[v] as int == capped(
            degree_at(*expr, total_vars as nat, v),
        ),
    decreases expr,
{
    let ghost t = total_vars as nat;
    match expr {
        ClaimExpr::Factor(ClaimFactor::Witness) | ClaimExpr::Factor(ClaimFactor::ConjWitness) => {
            filled(1, total_vars)
        },
        ClaimExpr::Factor(ClaimFactor::Public(pf)) => {
            let (lo, hi) = public_support(pf, total_vars);
            let mut d = filled(0, total_vars);
            let mut i: usize = lo;
            while i < hi
                invariant
                    lo <= i <= hi <= total_vars,
                    d@.len() == total_vars,
                    forall|v: int| 0 <= v < total_vars ==> #[trigger] d@[v] == if lo <= v < i {
                        1usize
                    } else {
                        0usize
                    },
                decreases hi - i,
            {
                d.set(i, 1);
                i = i + 1;
            }
            d
        },
        ClaimExpr::Factor(_) => {
            proof {
                assert(false);
            }
            filled(0, total_vars)
        },
        ClaimExpr::Constant(_) => filled(0, total_vars),
        ClaimExpr::Product(a, b) => {
            let mut da = expr_degree(a, total_vars);
            let db = expr_degree(b, total_vars);
            let mut i: usize = 0;
            while i < total_vars
                invariant
                    i <= total_vars,
                    da@.len() == total_vars,
                    db@.len() == total_vars,
                    forall|v: int| 0 <= v < total_vars ==> #[trigger] degree_at(*expr, t, v) == degree_at(**a, t, v) + degree_at(**b, t, v),
                    forall|v: int| 0 <= v < total_vars ==> #[trigger] da@[v] as int == if v < i {
                        capped(degree_at(*expr, t, v)) as int
                    } else {
                        capped(degree_at(**a, t, v)) as int
                    },
                    forall|v: int| 0 <= v < total_vars ==> #[trigger] db@[v] as int == capped(degree_at(**b, t, v)),
                decreases total_vars - i,
            {
                let s = if da[i] + db[i] > 4 {
                    4
                } else {
                    da[i] + db[i]
                };
                da.set(i, s);
                i = i + 1;
            }
            da
        },
        ClaimExpr::Sum(a, b) | ClaimExpr::Diff(a, b) => {
            let mut da = expr_degree(a, total_vars);
            let db = expr_degree(b, total_vars);
            let mut i: usize = 0;
            while i < total_vars
                invariant
                    i <= total_vars,
                    da@.len() == total_vars,
                    db@.len() == total_vars,
                    forall|v: int| 0 <= v < total_vars ==> #[trigger] da@[v] as int == if v < i {
                        capped(max_nat(degree_at(**a, t, v), degree_at(**b, t, v))) as int
                    } else {
                        capped(degree_at(**a, t, v)) as int
                    },
                    forall|v: int| 0 <= v < total_vars ==> #[trigger] db@[v] as int == capped(degree_at(**b, t, v)),
                decreases total_vars - i,
            {
                if db[i] > da[i] {
                    let m = db[i];
                    da.set(i, m);
                }
                i = i + 1;
            }
            da
        },
        ClaimExpr::Scale(_, x) => expr_degree(x, total_vars),
    }
}

/// `n` copies of `value`.
fn filled(value: usize, n: usize) -> (r: Vec<usize>)
    ensures
        r@.len() == n,
        forall|v: int| 0 <= v < n ==> #[trigger] r@[v] == value,
{
    let mut r: Vec<usize> = Vec::with_capacity(n);
    let mut i: usize = 0;
    while i < n
        invariant
            i <= n,
            r@.len() == i,
            forall|v: int| 0 <= v < i ==> #[trigger] r@[v] == value,
        decreases n - i,
    {
        r.push(value);
        i = i + 1;
    }
    r
}

/// The structural check both parties make on canonical claims: there is at
/// least one, and no variable of any claim has degree above three.
pub fn validate_claims(claims: &Vec<SnarkClaim>, total_vars: usize) -> (r: bool)
    requires
        forall|i: int|
            0 <= i < claims@.len() ==> degree_ok(#[trigger] claims@[i].expr, total_vars as nat),
    ensures
        r == (claims@.len() > 0 && forall|i: int, v: int|
            0 <= i < claims@.len() && 0 <= v < total_vars ==> #[trigger] degree_at(
                claims@[i].expr,
                total_vars as nat,
                v,
            ) <= 3),
{
    if claims.len() == 0 {
        return false;
    }
    let mut k: usize = 0;
    while k < claims.len()
        invariant
            k <= claims@.len(),
            forall|i: int|
                0 <= i < claims@.len() ==> degree_ok(#[trigger] claims@[i].expr, total_vars as nat),
            forall|i: int, v: int|
                0 <= i < k && 0 <= v < total_vars ==> #[trigger] degree_at(
                    claims@[i].expr,
                    total_vars as nat,
                    v,
                ) <= 3,
        decreases claims@.len() - k,
    {
        let degree = expr_degree(&claims[k].expr, total_vars);
        let mut v: usize = 0;
        while v < total_vars
            invariant
                v <= total_vars,
                k < claims@.len(),
                degree@.len() == total_vars,
                forall|w: int| 0 <= w < total_vars ==> #[trigger] degree@[w] as int == capped(degree_at(
                    claims@[k as int].expr,
                    total_vars as nat,
                    w,
                )),
                forall|w: int| 0 <= w < v ==> #[trigger] degree_at(
                    claims@[k as int].expr,
                    total_vars as nat,
                    w,
                ) <= 3,
            decreases total_vars - v,
        {
            if degree[v] > 3 {
                assert(degree_at(claims@[k as int].expr, total_vars as nat, v as int) > 3);
                return false;
            }
            v = v + 1;
        }
        k = k + 1;
    }
    true
}

} // verus!
