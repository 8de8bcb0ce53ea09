//! The verifier's replay of the sumcheck rounds over the extension field:
//! each round polynomial is absorbed, checked against the running claim, and
//! evaluated at the challenge drawn after it.
use vstd::prelude::*;
use crate::common::algebra::padd;
use crate::common::hash::{challenge_at, qe_slice_bytes, HashWrapper};
use crate::common::ring_arithmetic::QuadraticExtension;
use crate::common::sumcheck_element::{elem_wf, SumcheckElement};
use crate::protocol::sumcheck_utils::polynomial::{lagrange, Polynomial};

verus! {

/// The coefficient array of a round polynomial, as the transcript absorbs it.
pub open spec fn round_coeffs(p: Polynomial<QuadraticExtension>) -> Seq<(int, int)> {
    Seq::new(4, |i: int| p.coefficients@[i]@)
}

/// The transcript bytes after absorbing the first `t` round polynomials onto
/// `a0`.
pub open spec fn absorbed_rounds(
    a0: Seq<u8>,
    polys: Seq<Polynomial<QuadraticExtension>>,
    t: nat,
) -> Seq<u8>
    decreases t,
{
    if t == 0 {
        a0
    } else {
        absorbed_rounds(a0, polys, (t - 1) as nat) + qe_slice_bytes(round_coeffs(polys[t - 1]))
    }
}

/// The challenge of round `t`: the first one drawn after its polynomial is
/// absorbed.
pub open spec fn round_challenge(
    a0: Seq<u8>,
    polys: Seq<Polynomial<QuadraticExtension>>,
    t: nat,
) -> (int, int) {
    challenge_at(absorbed_rounds(a0, polys, t + 1), 0)
}

/// A round polynomial's value at `x`.
pub open spec fn round_at(p: Polynomial<QuadraticExtension>, x: (int, int)) -> (int, int) {
    lagrange(p.evals(), p.num_coefficients as nat, seq![x], 1)[0]
}

/// The running claim before round `t`: the initial claim, then each round
/// polynomial at its challenge.
pub open spec fn round_claim(
    c0: (int, int),
    a0: Seq<u8>,
    polys: Seq<Polynomial<QuadraticExtension>>,
    t: nat,
) -> (int, int) {
    if t == 0 {
        c0
    } else {
        round_at(polys[t - 1], round_challenge(a0, polys, (t - 1) as nat))
    }
}

/// Round `t` passes: the unused entries of its polynomial are zero, and
/// `P(0) + P(1)` is the running claim.
pub open spec fn round_ok(
    c0: (int, int),
    a0: Seq<u8>,
    polys: Seq<Polynomial<QuadraticExtension>>,
    t: nat,
) -> bool {
    let p = polys[t as int];
    &&& forall|i: int|
        p.num_coefficients <= i < 4 ==> #[trigger] p.coefficients@[i]@ == (0int, 0int)
    &&& padd(
        p.coefficients@[0]@,
        if p.num_coefficients >= 2 {
            p.coefficients@[1]@
        } else {
            p.coefficients@[0]@
        },
    ) == round_claim(c0, a0, polys, t)
}

/// Replays the rounds against `claim`: absorbs each polynomial, checks it,
/// and draws its challenge. `None` as soon as a round fails; otherwise the
/// final claim and the challenges, in round order.
pub fn verify_rounds(
    polys: &Vec<Polynomial<QuadraticExtension>>,
    claim: &QuadraticExtension,
    hash_wrapper: &mut HashWrapper,
) -> (r: Option<(QuadraticExtension, Vec<QuadraticExtension>)>)
    requires
        claim.wf(),
        forall|t: int| 0 <= t < polys@.len() ==> (#[trigger] polys@[t]).wf(),
    ensures
        r is Some <==> forall|t: nat|
            t < polys@.len() ==> #[trigger] round_ok(claim@, old(hash_wrapper)@.absorbed, polys@, t),
        r matches Some(out) ==> {
            &&& out.0.wf()
            &&& out.0@ == round_claim(
                claim@,
                old(hash_wrapper)@.absorbed,
                polys@,
                polys@.len(),
            )
            &&& out.1@.len() == polys@.len()
            &&& forall|t: int|
                0 <= t < polys@.len() ==> (#[trigger] out.1@[t]).wf() && out.1@[t]@
                    == round_challenge(old(hash_wrapper)@.absorbed, polys@, t as nat)
            &&& final(hash_wrapper)@.absorbed == absorbed_rounds(
                old(hash_wrapper)@.absorbed,
                polys@,
                polys@.len(),
            )
            &&& final(hash_wrapper)@.squeezed == if polys@.len() == 0 {
                old(hash_wrapper)@.squeezed
            } else {
                1
            }
        },
{
    let ghost a0 = hash_wrapper@.absorbed;
    let ghost sq0 = hash_wrapper@.squeezed;
    let mut running = *claim;
    let mut points: Vec<QuadraticExtension> = Vec::new();
    let mut t: usize = 0;
    while t < polys.len()
        invariant
            t <= polys@.len(),
            a0 == old(hash_wrapper)@.absorbed,
            sq0 == old(hash_wrapper)@.squeezed,
            forall|u: int| 0 <= u < polys@.len() ==> (#[trigger] polys@[u]).wf(),
            running.wf(),
            running@ == round_claim(claim@, a0, polys@, t as nat),
            points@.len() == t,
            forall|u: int|
                0 <= u < t ==> (#[trigger] points@[u]).wf() && points@[u]@ == round_challenge(
                    a0,
                    polys@,
                    u as nat,
                ),
            forall|u: nat| u < t ==> #[trigger] round_ok(claim@, a0, polys@, u),
            hash_wrapper@.absorbed == absorbed_rounds(a0, polys@, t as nat),
            hash_wrapper@.squeezed == if t == 0 {
                sq0
            } else {
                1
            },
        decreases polys@.len() - t,
    {
        let p = &polys[t];
        proof {
            assert(p.wf());
            assert forall|i: int| 0 <= i < 4 implies #[trigger] p.coefficients@[i].wf() by {
                assert(elem_wf(&p.coefficients@[i]));
                assert(p.coefficients@[i].vals()[0] == p.coefficients@[i]@);
            }
        }
        hash_wrapper.update_with_quadratic_extension_slice(&p.coefficients);
        proof {
            assert(p.coefficients@.map_values(|e: QuadraticExtension| e@) =~= round_coeffs(*p));
        }
        let mut k: usize = p.num_coefficients;
        while k < 4
            invariant
                t < polys@.len(),
                *p == polys@[t as int],
                a0 == old(hash_wrapper)@.absorbed,
                p.num_coefficients <= k <= 4,
                forall|i: int| p.num_coefficients <= i < k ==> #[trigger] p.coefficients@[i]@ == (
                    0int,
                    0int,
                ),
            decreases 4 - k,
        {
            if p.coefficients[k].coeffs[0] != 0 || p.coefficients[k].coeffs[1] != 0 {
                proof {
                    assert(p.coefficients@[k as int]@ != (0int, 0int));
                    assert(!round_ok(claim@, a0, polys@, t as nat));
                }
                return None;
            }
            k = k + 1;
        }
        let z = p.at_zero();
        let o = p.at_one();
        proof {
            assert(z.vals()[0] == z@ && o.vals()[0] == o@);
            assert(p.evals()[0][0] == p.coefficients@[0]@);
            assert(p.evals()[1][0] == p.coefficients@[1]@);
        }
        let s = z.add(&o);
        if !s.equals(&running) {
            proof {
                assert(!round_ok(claim@, a0, polys@, t as nat));
            }
            return None;
        }
        let mut f = QuadraticExtension::zero();
        hash_wrapper.sample_field_element_into(&mut f);
        proof {
            assert(f.vals() =~= seq![f@]);
            assert(elem_wf(&f)) by {
                assert(f.vals()[0] == f@);
            }
        }
        let v = p.at(&f);
        proof {
            assert(v.vals()[0] == v@);
            assert(v.wf()) by {
                assert(elem_wf(&v));
                assert(v.vals()[0] == v@);
            }
        }
        running = v;
        points.push(f);
        t = t + 1;
    }
    Some((running, points))
}

} // verus!
