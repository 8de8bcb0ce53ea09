//! Univariate polynomials of degree at most three over the ring, in monomial
//! form: `coefficients[i]` is the coefficient of `x^i`.
use vstd::prelude::*;
use crate::common::algebra::{lemma_seq_laws, lemma_sops_wf, sadd, sconst, smul, ssub, swf};
use crate::common::config::HALF_DEGREE;
use crate::common::ring_arithmetic::{Representation, RingElement};

verus! {

/// The zero of the ring, slot-wise.
pub open spec fn szero() -> Seq<(int, int)> {
    sconst(HALF_DEGREE as nat, (0, 0))
}

/// The one of the ring, slot-wise.
pub open spec fn sone() -> Seq<(int, int)> {
    sconst(HALF_DEGREE as nat, (1, 0))
}

/// `x^k` in the ring.
pub open spec fn spow(x: Seq<(int, int)>, k: nat) -> Seq<(int, int)>
    decreases k,
{
    if k == 0 {
        sone()
    } else {
        smul(spow(x, (k - 1) as nat), x)
    }
}

/// `sum_{i < n} c_i x^i`.
pub open spec fn meval(c: Seq<Seq<(int, int)>>, n: nat, x: Seq<(int, int)>) -> Seq<(int, int)>
    decreases n,
{
    if n == 0 {
        szero()
    } else {
        sadd(meval(c, (n - 1) as nat, x), smul(c[n - 1], spow(x, (n - 1) as nat)))
    }
}

/// `sum_{i < n} c_i`.
pub open spec fn msum(c: Seq<Seq<(int, int)>>, n: nat) -> Seq<(int, int)>
    decreases n,
{
    if n == 0 {
        szero()
    } else {
        sadd(msum(c, (n - 1) as nat), c[n - 1])
    }
}

/// `sum_{i' < i, 0 <= k - i' < n1} a_{i'} b_{k - i'}`: the part of the
/// coefficient of `x^k` of a product contributed by the first `i` terms of `a`.
pub open spec fn conv(
    a: Seq<Seq<(int, int)>>,
    b: Seq<Seq<(int, int)>>,
    n1: nat,
    i: nat,
    k: int,
) -> Seq<(int, int)>
    decreases i,
{
    if i == 0 {
        szero()
    } else {
        let j = k - (i - 1);
        if 0 <= j < n1 {
            sadd(conv(a, b, n1, (i - 1) as nat, k), smul(a[i - 1], b[j]))
        } else {
            conv(a, b, n1, (i - 1) as nat, k)
        }
    }
}

/// Univariate polynomial of degree at most three.
pub struct Polynomial {
    pub coefficients: [RingElement; 4],
    /// How many coefficients are active (degree + 1).
    pub num_coefficients: usize,
}

impl Polynomial {
    /// All four coefficients are ring elements and at most four are active.
    pub open spec fn wf(&self) -> bool {
        &&& self.num_coefficients <= 4
        &&& forall|i: int| 0 <= i < 4 ==> (#[trigger] self.coefficients[i]).wf()
    }

    /// The coefficients, slot-wise.
    pub open spec fn coeffs(&self) -> Seq<Seq<(int, int)>> {
        Seq::new(4, |i: int| self.coefficients[i]@)
    }

    /// The zero polynomial with `num_coefficients` active coefficients.
    pub fn new(num_coefficients: usize, representation: Representation) -> (r: Polynomial)
        requires
            num_coefficients <= 4,
        ensures
            r.wf(),
            r.num_coefficients == num_coefficients,
            forall|i: int| 0 <= i < 4 ==> #[trigger] r.coefficients[i]@ == szero(),
    {
        Polynomial {
            coefficients: [
                RingElement::zero(representation),
                RingElement::zero(representation),
                RingElement::zero(representation),
                RingElement::zero(representation),
            ],
            num_coefficients,
        }
    }

    /// The value at `x = 0`: the constant coefficient.
    pub fn at_zero(&self) -> (r: RingElement)
        requires
            self.wf(),
        ensures
            r.wf(),
            r@ == self.coefficients[0]@,
    {
        self.coefficients[0].duplicate()
    }

    /// The value at `x = 1`: the sum of the active coefficients.
    pub fn at_one(&self) -> (r: RingElement)
        requires
            self.wf(),
        ensures
            r.wf(),
            r@ == msum(self.coeffs(), self.num_coefficients as nat),
    {
        let mut result = RingElement::zero(Representation::IncompleteNTT);
        let mut i: usize = 0;
        while i < self.num_coefficients
            invariant
                self.wf(),
                i <= self.num_coefficients,
                result.wf(),
                result@ == msum(self.coeffs(), i as nat),
            decreases self.num_coefficients - i,
        {
            result = result.add(&self.coefficients[i]);
            i = i + 1;
        }
        result
    }

    /// The value `sum_i c_i x^i` at `point`.
    pub fn at(&self, point: &RingElement) -> (r: RingElement)
        requires
            self.wf(),
            point.wf(),
        ensures
            r.wf(),
            r@ == meval(self.coeffs(), self.num_coefficients as nat, point@),
    {
        let mut result = RingElement::zero(Representation::IncompleteNTT);
        let mut power = RingElement::constant(1, Representation::IncompleteNTT);
        proof {
            crate::common::algebra::lemma_reduced_fixed(1);
        }
        let mut i: usize = 0;
        while i < self.num_coefficients
            invariant
                self.wf(),
                point.wf(),
                i <= self.num_coefficients,
                result.wf(),
                power.wf(),
                result@ == meval(self.coeffs(), i as nat, point@),
                power@ == spow(point@, i as nat),
            decreases self.num_coefficients - i,
        {
            let term = self.coefficients[i].mul(&power);
            result = result.add(&term);
            power = power.mul(point);
            i = i + 1;
        }
        result
    }

    /// Resets every coefficient to zero and the polynomial to no active
    /// coefficients.
    pub fn set_zero(&mut self)
        ensures
            final(self).wf(),
            final(self).num_coefficients == 0,
            forall|i: int| 0 <= i < 4 ==> #[trigger] final(self).coefficients[i]@ == szero(),
    {
        self.coefficients = [
            RingElement::zero(Representation::IncompleteNTT),
            RingElement::zero(Representation::IncompleteNTT),
            RingElement::zero(Representation::IncompleteNTT),
            RingElement::zero(Representation::IncompleteNTT),
        ];
        self.num_coefficients = 0;
    }
}

} // verus!

verus! {

/// Multiplies `poly_0` by `poly_1` and stores the product in `result`: its
/// coefficient of `x^k` is the sum of `poly_0[i] * poly_1[j]` over `i + j ==
/// k`, zero past the product's degree.
pub fn mul_poly_into(result: &mut Polynomial, poly_0: &Polynomial, poly_1: &Polynomial)
    requires
        old(result).wf(),
        poly_0.wf(),
        poly_1.wf(),
        1 <= poly_0.num_coefficients + poly_1.num_coefficients <= 5,
    ensures
        final(result).wf(),
        final(result).num_coefficients == poly_0.num_coefficients + poly_1.num_coefficients - 1,
        forall|k: int|
            0 <= k < 4 ==> #[trigger] final(result).coefficients[k]@ == conv(
                poly_0.coeffs(),
                poly_1.coeffs(),
                poly_1.num_coefficients as nat,
                poly_0.num_coefficients as nat,
                k,
            ),
{
    result.set_zero();
    let ghost start = result.coeffs();
    let ghost a = poly_0.coeffs();
    let ghost b = poly_1.coeffs();
    let ghost n1 = poly_1.num_coefficients as nat;
    proof {
        assert forall|k: int| 0 <= k < 4 implies #[trigger] start[k] == sadd(
            start[k],
            conv(a, b, n1, 0, k),
        ) by {
            lemma_seq_laws(start[k], start[k], start[k]);
        }
    }
    let mut i: usize = 0;
    while i < poly_0.num_coefficients
        invariant
            i <= poly_0.num_coefficients,
            poly_0.wf(),
            poly_1.wf(),
            a == poly_0.coeffs(),
            b == poly_1.coeffs(),
            n1 == poly_1.num_coefficients,
            poly_0.num_coefficients + poly_1.num_coefficients <= 5,
            result.num_coefficients <= 4,
            forall|k: int| 0 <= k < 4 ==> (#[trigger] result.coefficients[k]).wf(),
            forall|k: int|
                0 <= k < 4 ==> #[trigger] result.coefficients[k]@ == sadd(
                    start[k],
                    conv(a, b, n1, i as nat, k),
                ),
            forall|k: int| 0 <= k < 4 ==> swf(#[trigger] start[k]) && start[k].len() == HALF_DEGREE,
        decreases poly_0.num_coefficients - i,
    {
        let mut j: usize = 0;
        while j < poly_1.num_coefficients
            invariant
                i < poly_0.num_coefficients,
                j <= poly_1.num_coefficients,
                poly_0.wf(),
                poly_1.wf(),
                a == poly_0.coeffs(),
                b == poly_1.coeffs(),
                n1 == poly_1.num_coefficients,
                poly_0.num_coefficients + poly_1.num_coefficients <= 5,
                result.num_coefficients <= 4,
                forall|k: int| 0 <= k < 4 ==> (#[trigger] result.coefficients[k]).wf(),
                forall|k: int|
                    0 <= k < 4 ==> #[trigger] result.coefficients[k]@ == sadd(
                        start[k],
                        if 0 <= k - i < j {
                            conv(a, b, n1, (i + 1) as nat, k)
                        } else {
                            conv(a, b, n1, i as nat, k)
                        },
                    ),
                forall|k: int|
                    0 <= k < 4 ==> swf(#[trigger] start[k]) && start[k].len() == HALF_DEGREE,
            decreases poly_1.num_coefficients - j,
        {
            let k = i + j;
            let prod = poly_0.coefficients[i].mul(&poly_1.coefficients[j]);
            let updated = result.coefficients[k].add(&prod);
            proof {
                let c = conv(a, b, n1, i as nat, k as int);
                lemma_conv_wf(a, b, n1, i as nat, k as int);
                lemma_seq_laws(start[k as int], c, prod@);
            }
            result.coefficients[k] = updated;
            j = j + 1;
        }
        proof {
            assert forall|k: int| 0 <= k < 4 implies #[trigger] result.coefficients[k]@ == sadd(
                start[k],
                conv(a, b, n1, (i + 1) as nat, k),
            ) by {
                if !(0 <= k - i < n1) {
                    assert(conv(a, b, n1, (i + 1) as nat, k) == conv(a, b, n1, i as nat, k));
                }
            }
        }
        i = i + 1;
    }
    proof {
        assert forall|k: int| 0 <= k < 4 implies #[trigger] result.coefficients[k]@ == conv(
            a,
            b,
            n1,
            poly_0.num_coefficients as nat,
            k,
        ) by {
            let c = conv(a, b, n1, poly_0.num_coefficients as nat, k);
            lemma_conv_wf(a, b, n1, poly_0.num_coefficients as nat, k);
            lemma_seq_laws(c, szero(), szero());
        }
    }
    result.num_coefficients = poly_0.num_coefficients + poly_1.num_coefficients - 1;
}

/// The partial convolutions are well-formed ring elements.
pub proof fn lemma_conv_wf(
    a: Seq<Seq<(int, int)>>,
    b: Seq<Seq<(int, int)>>,
    n1: nat,
    i: nat,
    k: int,
)
    ensures
        swf(conv(a, b, n1, i, k)),
        conv(a, b, n1, i, k).len() == HALF_DEGREE,
    decreases i,
{
    if i > 0 {
        lemma_conv_wf(a, b, n1, (i - 1) as nat, k);
        let j = k - (i - 1);
        if 0 <= j < n1 {
            lemma_sops_wf(conv(a, b, n1, (i - 1) as nat, k), smul(a[i - 1], b[j]));
        }
    }
}

/// Coefficient `k` of `p`, zero past its active coefficients.
pub open spec fn padded_coeff(p: Polynomial, k: int) -> Seq<(int, int)> {
    if k < p.num_coefficients {
        p.coefficients[k]@
    } else {
        szero()
    }
}

/// Stores `poly_0 + poly_1` in `result`: each coefficient is the sum of the
/// two operands' coefficients (zero past an operand's active ones), and the
/// active count is the larger of the two.
pub fn add_poly_into(result: &mut Polynomial, poly_0: &Polynomial, poly_1: &Polynomial)
    requires
        old(result).wf(),
        poly_0.wf(),
        poly_1.wf(),
    ensures
        final(result).wf(),
        final(result).num_coefficients == if poly_0.num_coefficients >= poly_1.num_coefficients {
            poly_0.num_coefficients
        } else {
            poly_1.num_coefficients
        },
        forall|k: int|
            0 <= k < 4 ==> #[trigger] final(result).coefficients[k]@ == sadd(
                padded_coeff(*poly_0, k),
                padded_coeff(*poly_1, k),
            ),
{
    let mut i: usize = 0;
    while i < 4
        invariant
            i <= 4,
            poly_0.wf(),
            poly_1.wf(),
            result.num_coefficients <= 4,
            forall|k: int| 0 <= k < 4 ==> (#[trigger] result.coefficients[k]).wf(),
            forall|k: int|
                0 <= k < i ==> #[trigger] result.coefficients[k]@ == sadd(
                    padded_coeff(*poly_0, k),
                    padded_coeff(*poly_1, k),
                ),
        decreases 4 - i,
    {
        let a = if i < poly_0.num_coefficients {
            poly_0.coefficients[i].duplicate()
        } else {
            RingElement::zero(Representation::IncompleteNTT)
        };
        let b = if i < poly_1.num_coefficients {
            poly_1.coefficients[i].duplicate()
        } else {
            RingElement::zero(Representation::IncompleteNTT)
        };
        let s = a.add(&b);
        result.coefficients[i] = s;
        i = i + 1;
    }
    result.num_coefficients = if poly_0.num_coefficients >= poly_1.num_coefficients {
        poly_0.num_coefficients
    } else {
        poly_1.num_coefficients
    };
}

/// Adds (`subtract == false`) or subtracts the first `poly.num_coefficients`
/// coefficients of `poly` into `result` and widens its active count.
fn combine_in_place(result: &mut Polynomial, poly: &Polynomial, subtract: bool)
    requires
        old(result).wf(),
        poly.wf(),
    ensures
        final(result).wf(),
        final(result).num_coefficients == if old(result).num_coefficients
            >= poly.num_coefficients {
            old(result).num_coefficients
        } else {
            poly.num_coefficients
        },
        forall|k: int|
            0 <= k < 4 ==> #[trigger] final(result).coefficients[k]@ == if k
                < poly.num_coefficients {
                if subtract {
                    ssub(old(result).coefficients[k]@, poly.coefficients[k]@)
                } else {
                    sadd(old(result).coefficients[k]@, poly.coefficients[k]@)
                }
            } else {
                old(result).coefficients[k]@
            },
{
    let ghost start = result.coeffs();
    let mut i: usize = 0;
    while i < poly.num_coefficients
        invariant
            i <= poly.num_coefficients,
            poly.wf(),
            result.num_coefficients == old(result).num_coefficients,
            result.num_coefficients <= 4,
            start == old(result).coeffs(),
            forall|k: int| 0 <= k < 4 ==> (#[trigger] result.coefficients[k]).wf(),
            forall|k: int|
                0 <= k < 4 ==> #[trigger] result.coefficients[k]@ == if k < i {
                    if subtract {
                        ssub(start[k], poly.coefficients[k]@)
                    } else {
                        sadd(start[k], poly.coefficients[k]@)
                    }
                } else {
                    start[k]
                },
        decreases poly.num_coefficients - i,
    {
        let s = if subtract {
            result.coefficients[i].sub(&poly.coefficients[i])
        } else {
            result.coefficients[i].add(&poly.coefficients[i])
        };
        result.coefficients[i] = s;
        i = i + 1;
    }
    if poly.num_coefficients > result.num_coefficients {
        result.num_coefficients = poly.num_coefficients;
    }
}

/// Adds `poly` into `result` in place.
pub fn add_poly_in_place(result: &mut Polynomial, poly: &Polynomial)
    requires
        old(result).wf(),
        poly.wf(),
    ensures
        final(result).wf(),
        final(result).num_coefficients == if old(result).num_coefficients
            >= poly.num_coefficients {
            old(result).num_coefficients
        } else {
            poly.num_coefficients
        },
        forall|k: int|
            0 <= k < 4 ==> #[trigger] final(result).coefficients[k]@ == if k
                < poly.num_coefficients {
                sadd(old(result).coefficients[k]@, poly.coefficients[k]@)
            } else {
                old(result).coefficients[k]@
            },
{
    combine_in_place(result, poly, false);
}

/// Subtracts `poly` from `result` in place.
pub fn sub_poly_in_place(result: &mut Polynomial, poly: &Polynomial)
    requires
        old(result).wf(),
        poly.wf(),
    ensures
        final(result).wf(),
        final(result).num_coefficients == if old(result).num_coefficients
            >= poly.num_coefficients {
            old(result).num_coefficients
        } else {
            poly.num_coefficients
        },
        forall|k: int|
            0 <= k < 4 ==> #[trigger] final(result).coefficients[k]@ == if k
                < poly.num_coefficients {
                ssub(old(result).coefficients[k]@, poly.coefficients[k]@)
            } else {
                old(result).coefficients[k]@
            },
{
    combine_in_place(result, poly, true);
}

} // verus!

verus! {

proof fn lemma_spow_wf(x: Seq<(int, int)>, k: nat)
    requires
        swf(x),
        x.len() == HALF_DEGREE,
    ensures
        swf(spow(x, k)),
        spow(x, k).len() == HALF_DEGREE,
    decreases k,
{
    if k > 0 {
        lemma_spow_wf(x, (k - 1) as nat);
        lemma_sops_wf(spow(x, (k - 1) as nat), x);
    }
}

proof fn lemma_spow_one_zero(k: nat)
    ensures
        spow(sone(), k) == sone(),
        k >= 1 ==> spow(szero(), k) == szero(),
    decreases k,
{
    crate::common::algebra::lemma_sconst_wf(HALF_DEGREE as nat, (1, 0));
    crate::common::algebra::lemma_sconst_wf(HALF_DEGREE as nat, (0, 0));
    if k > 0 {
        lemma_spow_one_zero((k - 1) as nat);
        lemma_seq_laws(sone(), sone(), sone());
        lemma_seq_laws(spow(szero(), (k - 1) as nat), sone(), sone());
        lemma_spow_wf(szero(), (k - 1) as nat);
    }
}

/// Evaluating a polynomial at one gives the sum of its coefficients, so
/// `at(1)` agrees with `at_one`.
pub proof fn lemma_eval_at_one(p: Polynomial)
    requires
        p.wf(),
    ensures
        meval(p.coeffs(), p.num_coefficients as nat, sone()) == msum(
            p.coeffs(),
            p.num_coefficients as nat,
        ),
{
    lemma_meval_one(p.coeffs(), p.num_coefficients as nat);
}

proof fn lemma_meval_one(c: Seq<Seq<(int, int)>>, n: nat)
    requires
        n <= c.len(),
        forall|i: int| 0 <= i < c.len() ==> swf(#[trigger] c[i]) && c[i].len() == HALF_DEGREE,
    ensures
        meval(c, n, sone()) == msum(c, n),
    decreases n,
{
    if n > 0 {
        lemma_meval_one(c, (n - 1) as nat);
        lemma_spow_one_zero((n - 1) as nat);
        lemma_seq_laws(c[n - 1], c[n - 1], c[n - 1]);
    }
}

/// Evaluating a polynomial with at least one active coefficient at zero
/// gives its constant coefficient, so `at(0)` agrees with `at_zero`.
pub proof fn lemma_eval_at_zero(p: Polynomial)
    requires
        p.wf(),
        p.num_coefficients >= 1,
    ensures
        meval(p.coeffs(), p.num_coefficients as nat, szero()) == p.coefficients[0]@,
{
    lemma_meval_zero(p.coeffs(), p.num_coefficients as nat);
}

proof fn lemma_meval_zero(c: Seq<Seq<(int, int)>>, n: nat)
    requires
        1 <= n <= c.len(),
        forall|i: int| 0 <= i < c.len() ==> swf(#[trigger] c[i]) && c[i].len() == HALF_DEGREE,
    ensures
        meval(c, n, szero()) == c[0],
    decreases n,
{
    crate::common::algebra::lemma_sconst_wf(HALF_DEGREE as nat, (1, 0));
    crate::common::algebra::lemma_sconst_wf(HALF_DEGREE as nat, (0, 0));
    if n == 1 {
        assert(meval(c, 0, szero()) == szero());
        assert(spow(szero(), 0) == sone());
        lemma_seq_laws(c[0], sone(), sone());
        lemma_seq_laws(szero(), c[0], c[0]);
    } else {
        lemma_meval_zero(c, (n - 1) as nat);
        lemma_spow_one_zero((n - 1) as nat);
        lemma_seq_laws(c[n - 1], c[n - 1], c[n - 1]);
        lemma_seq_laws(c[0], c[0], c[0]);
    }
}

} // verus!
