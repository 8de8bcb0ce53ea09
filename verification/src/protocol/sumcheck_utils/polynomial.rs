//! Univariate round polynomials in evaluation form: `coefficients[i]` is the
//! value `P(i)`, for the `num_coefficients` nodes `0, 1, ...` (degree + 1).
use vstd::prelude::*;
use crate::common::algebra::{pconst, sadd, sconst, smul, ssub};
use crate::common::ring_arithmetic::RingElement;
use crate::common::sumcheck_element::{elem_wf, SumcheckElement};

verus! {

/// `1/2` modulo `q`.
pub const INV_TWO: u64 = 1152921504606846976u64;

/// `1/6` modulo `q`.
pub const INV_SIX: u64 = 1921535841011411626u64;

/// Slot-wise `x + x`.
pub open spec fn twice(x: Seq<(int, int)>) -> Seq<(int, int)> {
    sadd(x, x)
}

/// Slot-wise `x + x + x`.
pub open spec fn thrice(x: Seq<(int, int)>) -> Seq<(int, int)> {
    sadd(sadd(x, x), x)
}

/// Entry `n` after extending the evaluations `c[0..k]` of a polynomial of
/// degree `k - 1` by forward differences (its `k`-th difference vanishes):
/// `f(n) = f(n-1)` for `k = 1`, `2 f(n-1) - f(n-2)` for `k = 2`, and
/// `3 f(n-1) - 3 f(n-2) + f(n-3)` for `k = 3`. Entries below `k`, and every
/// entry when `k` is zero, are left as they are.
pub open spec fn ext_at(c: Seq<Seq<(int, int)>>, k: nat, n: nat) -> Seq<(int, int)>
    decreases n,
{
    if n < k || k == 0 || k > 3 {
        c[n as int]
    } else if k == 1 {
        ext_at(c, k, (n - 1) as nat)
    } else if k == 2 {
        ssub(twice(ext_at(c, k, (n - 1) as nat)), ext_at(c, k, (n - 2) as nat))
    } else {
        sadd(
            ssub(thrice(ext_at(c, k, (n - 1) as nat)), thrice(ext_at(c, k, (n - 2) as nat))),
            ext_at(c, k, (n - 3) as nat),
        )
    }
}

/// The four entries after extending `c[0..k]` up to `to`.
pub open spec fn extended(c: Seq<Seq<(int, int)>>, k: nat, to: nat) -> Seq<Seq<(int, int)>> {
    Seq::new(
        4,
        |n: int|
            if n < to {
                ext_at(c, k, n as nat)
            } else {
                c[n]
            },
    )
}

/// The value at `x` of the polynomial of degree `n - 1` through
/// `(i, c[i])` for `i < n`, by Lagrange interpolation over the nodes `0..n`.
pub open spec fn lagrange(c: Seq<Seq<(int, int)>>, n: nat, x: Seq<(int, int)>, w: nat) -> Seq<
    (int, int),
> {
    let one = sconst(w, pconst(1));
    let two = sconst(w, pconst(2));
    let three = sadd(two, one);
    let inv2 = sconst(w, pconst(INV_TWO as int));
    let inv6 = sconst(w, pconst(INV_SIX as int));
    let rm1 = ssub(x, one);
    let rm2 = ssub(x, two);
    let rm3 = ssub(x, three);
    if n == 0 {
        sconst(w, (0, 0))
    } else if n == 1 {
        c[0]
    } else if n == 2 {
        sadd(smul(ssub(c[1], c[0]), x), c[0])
    } else if n == 3 {
        let t0 = smul(smul(smul(rm1, rm2), c[0]), inv2);
        let t1 = smul(smul(x, rm2), c[1]);
        let t2 = smul(smul(smul(x, rm1), c[2]), inv2);
        sadd(ssub(t0, t1), t2)
    } else {
        let t0 = smul(smul(smul(smul(rm1, rm2), rm3), c[0]), inv6);
        let t1 = smul(smul(smul(smul(x, rm2), rm3), c[1]), inv2);
        let t2 = smul(smul(smul(smul(x, rm1), rm3), c[2]), inv2);
        let t3 = smul(smul(smul(smul(x, rm1), rm2), c[3]), inv6);
        ssub(ssub(sadd(t1, t3), t0), t2)
    }
}

/// A univariate polynomial in evaluation form.
pub struct Polynomial<E: SumcheckElement> {
    pub coefficients: [E; 4],
    pub num_coefficients: usize,
}

impl<E: SumcheckElement> Polynomial<E> {
    /// All four slots hold canonical elements and at most four are used.
    pub open spec fn wf(&self) -> bool {
        &&& self.num_coefficients <= 4
        &&& forall|i: int| 0 <= i < 4 ==> #[trigger] elem_wf(&self.coefficients@[i])
    }

    /// The values of the four slots.
    pub open spec fn evals(&self) -> Seq<Seq<(int, int)>> {
        Seq::new(4, |i: int| self.coefficients@[i].vals())
    }

    /// The zero polynomial with `num_coefficients` evaluations.
    pub fn new(num_coefficients: usize) -> (r: Polynomial<E>)
        requires
            num_coefficients <= 4,
        ensures
            r.wf(),
            r.num_coefficients == num_coefficients,
            forall|i: int| 0 <= i < 4 ==> #[trigger] r.evals()[i] == sconst(E::width(), (0, 0)),
    {
        Polynomial {
            coefficients: [E::zero(), E::zero(), E::zero(), E::zero()],
            num_coefficients,
        }
    }

    /// `P(0)`.
    pub fn at_zero(&self) -> (r: E)
        requires
            self.wf(),
        ensures
            elem_wf(&r),
            r.vals() == self.evals()[0],
    {
        assert(elem_wf(&self.coefficients@[0]));
        self.coefficients[0].duplicate()
    }

    /// `P(1)`; a constant polynomial has it at node zero.
    pub fn at_one(&self) -> (r: E)
        requires
            self.wf(),
        ensures
            elem_wf(&r),
            r.vals() == if self.num_coefficients >= 2 {
                self.evals()[1]
            } else {
                self.evals()[0]
            },
    {
        assert(elem_wf(&self.coefficients@[0]) && elem_wf(&self.coefficients@[1]));
        if self.num_coefficients >= 2 {
            self.coefficients[1].duplicate()
        } else {
            self.coefficients[0].duplicate()
        }
    }

    /// `P(point)`, by Lagrange interpolation over the nodes.
    pub fn at(&self, point: &E) -> (r: E)
        requires
            self.wf(),
            elem_wf(point),
        ensures
            elem_wf(&r),
            r.vals() == lagrange(
                self.evals(),
                self.num_coefficients as nat,
                point.vals(),
                E::width(),
            ),
    {
        let c = &self.coefficients;
        assert(elem_wf(&c[0]) && elem_wf(&c[1]) && elem_wf(&c[2]) && elem_wf(&c[3]));
        if self.num_coefficients == 0 {
            E::zero()
        } else if self.num_coefficients == 1 {
            c[0].duplicate()
        } else if self.num_coefficients == 2 {
            let mut t = c[1].duplicate();
            t.sub_assign(&c[0]);
            t.mul_assign(point);
            t.add_assign(&c[0]);
            t
        } else if self.num_coefficients == 3 {
            let inv2 = E::constant(INV_TWO);
            let one = E::constant(1);
            let two = E::constant(2);
            let mut rm1 = point.duplicate();
            rm1.sub_assign(&one);
            let mut rm2 = point.duplicate();
            rm2.sub_assign(&two);
            let mut t0 = rm1.duplicate();
            t0.mul_assign(&rm2);
            t0.mul_assign(&c[0]);
            t0.mul_assign(&inv2);
            let mut t1 = point.duplicate();
            t1.mul_assign(&rm2);
            t1.mul_assign(&c[1]);
            let mut t2 = point.duplicate();
            t2.mul_assign(&rm1);
            t2.mul_assign(&c[2]);
            t2.mul_assign(&inv2);
            t0.sub_assign(&t1);
            t0.add_assign(&t2);
            t0
        } else {
            let inv2 = E::constant(INV_TWO);
            let inv6 = E::constant(INV_SIX);
            let one = E::constant(1);
            let two = E::constant(2);
            let mut three = E::constant(2);
            three.add_assign(&one);
            let mut rm1 = point.duplicate();
            rm1.sub_assign(&one);
            let mut rm2 = point.duplicate();
            rm2.sub_assign(&two);
            let mut rm3 = point.duplicate();
            rm3.sub_assign(&three);
            let mut t0 = rm1.duplicate();
            t0.mul_assign(&rm2);
            t0.mul_assign(&rm3);
            t0.mul_assign(&c[0]);
            t0.mul_assign(&inv6);
            let mut t1 = point.duplicate();
            t1.mul_assign(&rm2);
            t1.mul_assign(&rm3);
            t1.mul_assign(&c[1]);
            t1.mul_assign(&inv2);
            let mut t2 = point.duplicate();
            t2.mul_assign(&rm1);
            t2.mul_assign(&rm3);
            t2.mul_assign(&c[2]);
            t2.mul_assign(&inv2);
            let mut t3 = point.duplicate();
            t3.mul_assign(&rm1);
            t3.mul_assign(&rm2);
            t3.mul_assign(&c[3]);
            t3.mul_assign(&inv6);
            t1.add_assign(&t3);
            t1.sub_assign(&t0);
            t1.sub_assign(&t2);
            t1
        }
    }

    /// The zero polynomial, with no evaluations.
    pub fn set_zero(&mut self)
        ensures
            final(self).wf(),
            final(self).num_coefficients == 0,
            forall|i: int|
                0 <= i < 4 ==> #[trigger] final(self).evals()[i] == sconst(E::width(), (0, 0)),
    {
        self.coefficients[0].set_zero();
        self.coefficients[1].set_zero();
        self.coefficients[2].set_zero();
        self.coefficients[3].set_zero();
        self.num_coefficients = 0;
    }

    /// Copies the evaluations of `other` into `self`; slots past them keep
    /// their values.
    pub fn copy_from(&mut self, other: &Polynomial<E>)
        requires
            old(self).wf(),
            other.wf(),
        ensures
            final(self).wf(),
            final(self).num_coefficients == other.num_coefficients,
            forall|i: int|
                0 <= i < 4 ==> #[trigger] final(self).evals()[i] == if i
                    < other.num_coefficients {
                    other.evals()[i]
                } else {
                    old(self).evals()[i]
                },
    {
        self.num_coefficients = other.num_coefficients;
        let mut i: usize = 0;
        while i < other.num_coefficients
            invariant
                i <= other.num_coefficients,
                other.wf(),
                self.num_coefficients == other.num_coefficients,
                forall|j: int| 0 <= j < 4 ==> #[trigger] elem_wf(&self.coefficients@[j]),
                forall|j: int|
                    0 <= j < 4 ==> #[trigger] self.coefficients@[j].vals() == if j < i {
                        other.evals()[j]
                    } else {
                        old(self).evals()[j]
                    },
            decreases other.num_coefficients - i,
        {
            assert(elem_wf(&other.coefficients@[i as int]));
            self.coefficients[i].set_from(&other.coefficients[i]);
            i = i + 1;
        }
        assert(self.evals() =~= Seq::new(4, |j: int| self.coefficients@[j].vals()));
    }
}

/// Extends the evaluations `evals[0..k]` of a polynomial of degree `k - 1` to
/// `evals[0..to]` by forward differences.
fn extrapolate<E: SumcheckElement>(evals: &mut [E; 4], k: usize, to: usize)
    requires
        to <= 4,
        k <= 3 || k >= to,
        forall|i: int| 0 <= i < 4 ==> #[trigger] elem_wf(&old(evals)@[i]),
    ensures
        forall|i: int| 0 <= i < 4 ==> #[trigger] elem_wf(&final(evals)@[i]),
        forall|i: int|
            0 <= i < 4 ==> #[trigger] final(evals)@[i].vals() == extended(
                Seq::new(4, |j: int| old(evals)@[j].vals()),
                k as nat,
                to as nat,
            )[i],
{
    let ghost c = Seq::new(4, |j: int| old(evals)@[j].vals());
    let mut n: usize = k;
    while n < to
        invariant
            k <= n || to <= n,
            to <= 4,
            k <= 3 || k >= to,
            c == Seq::new(4, |j: int| old(evals)@[j].vals()),
            forall|i: int| 0 <= i < 4 ==> #[trigger] elem_wf(&evals@[i]),
            forall|i: int|
                0 <= i < 4 ==> #[trigger] evals@[i].vals() == if i < n && i < to {
                    ext_at(c, k as nat, i as nat)
                } else {
                    c[i]
                },
        decreases to - n,
    {
        proof {
            assert(elem_wf(&evals@[n as int]));
            if k > 0 {
                assert(elem_wf(&evals@[n - 1]));
            }
            if k > 1 {
                assert(elem_wf(&evals@[n - 2]));
            }
            if k > 2 {
                assert(elem_wf(&evals@[n - 3]));
            }
            if k > 0 {
                assert(evals@[n - 1].vals() == ext_at(c, k as nat, (n - 1) as nat));
            }
            if k > 1 {
                assert(evals@[n - 2].vals() == ext_at(c, k as nat, (n - 2) as nat));
            }
            if k > 2 {
                assert(evals@[n - 3].vals() == ext_at(c, k as nat, (n - 3) as nat));
            }
        }
        if k == 1 {
            let t = evals[n - 1].duplicate();
            evals[n] = t;
        } else if k == 2 {
            let mut t = evals[n - 1].duplicate();
            t.add_assign(&evals[n - 1]);
            t.sub_assign(&evals[n - 2]);
            evals[n] = t;
        } else if k == 3 {
            let mut t = evals[n - 1].duplicate();
            t.add_assign(&evals[n - 1]);
            t.add_assign(&evals[n - 1]);
            let mut s = evals[n - 2].duplicate();
            s.add_assign(&evals[n - 2]);
            s.add_assign(&evals[n - 2]);
            t.sub_assign(&s);
            t.add_assign(&evals[n - 3]);
            evals[n] = t;
        }
        n = n + 1;
    }
}

/// A copy of the first `d` evaluations of `p`, zero past them.
fn padded<E: SumcheckElement>(p: &Polynomial<E>, d: usize) -> (r: [E; 4])
    requires
        p.wf(),
        d <= 4,
    ensures
        forall|i: int| 0 <= i < 4 ==> #[trigger] elem_wf(&r@[i]),
        forall|i: int|
            0 <= i < 4 ==> #[trigger] r@[i].vals() == if i < d {
                p.evals()[i]
            } else {
                sconst(E::width(), (0, 0))
            },
{
    let mut e = [E::zero(), E::zero(), E::zero(), E::zero()];
    let mut i: usize = 0;
    while i < d
        invariant
            i <= d,
            d <= 4,
            p.wf(),
            forall|j: int| 0 <= j < 4 ==> #[trigger] elem_wf(&e@[j]),
            forall|j: int|
                0 <= j < 4 ==> #[trigger] e@[j].vals() == if j < i {
                    p.evals()[j]
                } else {
                    sconst(E::width(), (0, 0))
                },
        decreases d - i,
    {
        assert(elem_wf(&p.coefficients@[i as int]));
        e[i] = p.coefficients[i].duplicate();
        i = i + 1;
    }
    e
}

/// The first `d` evaluations of `p`, zero past them, as a sequence.
pub open spec fn padded_evals<E: SumcheckElement>(p: Polynomial<E>, d: nat) -> Seq<Seq<(int, int)>> {
    Seq::new(
        4,
        |i: int|
            if i < d {
                p.evals()[i]
            } else {
                sconst(E::width(), (0, 0))
            },
    )
}

/// `result := poly_0 * poly_1`: both factors are extended to the joint number
/// of evaluations and multiplied pointwise.
pub fn mul_poly_into<E: SumcheckElement>(
    result: &mut Polynomial<E>,
    poly_0: &Polynomial<E>,
    poly_1: &Polynomial<E>,
)
    requires
        old(result).wf(),
        poly_0.wf(),
        poly_1.wf(),
        poly_0.num_coefficients + poly_1.num_coefficients >= 1,
        poly_0.num_coefficients + poly_1.num_coefficients <= 5,
    ensures
        final(result).wf(),
        final(result).num_coefficients == poly_0.num_coefficients + poly_1.num_coefficients - 1,
        forall|i: int|
            0 <= i < 4 ==> #[trigger] final(result).evals()[i] == if i
                < final(result).num_coefficients {
                smul(
                    extended(
                        padded_evals(*poly_0, poly_0.num_coefficients as nat),
                        poly_0.num_coefficients as nat,
                        final(result).num_coefficients as nat,
                    )[i],
                    extended(
                        padded_evals(*poly_1, poly_1.num_coefficients as nat),
                        poly_1.num_coefficients as nat,
                        final(result).num_coefficients as nat,
                    )[i],
                )
            } else {
                old(result).evals()[i]
            },
{
    let d0 = poly_0.num_coefficients;
    let d1 = poly_1.num_coefficients;
    let m = d0 + d1 - 1;
    let mut e0 = padded(poly_0, d0);
    proof {
        assert(Seq::new(4, |j: int| e0@[j].vals()) =~= padded_evals(*poly_0, d0 as nat));
    }
    extrapolate(&mut e0, d0, m);
    let mut e1 = padded(poly_1, d1);
    proof {
        assert(Seq::new(4, |j: int| e1@[j].vals()) =~= padded_evals(*poly_1, d1 as nat));
    }
    extrapolate(&mut e1, d1, m);
    let mut i: usize = 0;
    while i < m
        invariant
            i <= m,
            m <= 4,
            forall|j: int| 0 <= j < 4 ==> #[trigger] elem_wf(&e0@[j]),
            forall|j: int| 0 <= j < 4 ==> #[trigger] elem_wf(&e1@[j]),
            forall|j: int| 0 <= j < 4 ==> #[trigger] elem_wf(&result.coefficients@[j]),
            result.num_coefficients == old(result).num_coefficients,
            forall|j: int|
                0 <= j < 4 ==> #[trigger] result.coefficients@[j].vals() == if j < i {
                    smul(e0@[j].vals(), e1@[j].vals())
                } else {
                    old(result).evals()[j]
                },
        decreases m - i,
    {
        assert(elem_wf(&e0@[i as int]) && elem_wf(&e1@[i as int]));
        result.coefficients[i].mul_from(&e0[i], &e1[i]);
        i = i + 1;
    }
    result.num_coefficients = m;
}

/// `result += poly`, both extended to the larger number of evaluations.
pub fn add_poly_in_place<E: SumcheckElement>(result: &mut Polynomial<E>, poly: &Polynomial<E>)
    requires
        old(result).wf(),
        poly.wf(),
    ensures
        final(result).wf(),
        final(result).num_coefficients == if old(result).num_coefficients
            >= poly.num_coefficients {
            old(result).num_coefficients
        } else {
            poly.num_coefficients
        },
        forall|i: int|
            0 <= i < 4 ==> #[trigger] final(result).evals()[i] == if i
                < final(result).num_coefficients {
                sadd(
                    extended(
                        old(result).evals(),
                        old(result).num_coefficients as nat,
                        final(result).num_coefficients as nat,
                    )[i],
                    extended(
                        padded_evals(*poly, poly.num_coefficients as nat),
                        poly.num_coefficients as nat,
                        final(result).num_coefficients as nat,
                    )[i],
                )
            } else {
                old(result).evals()[i]
            },
{
    combine_in_place(result, poly, false)
}

/// `result -= poly`, both extended to the larger number of evaluations.
pub fn sub_poly_in_place<E: SumcheckElement>(result: &mut Polynomial<E>, poly: &Polynomial<E>)
    requires
        old(result).wf(),
        poly.wf(),
    ensures
        final(result).wf(),
        final(result).num_coefficients == if old(result).num_coefficients
            >= poly.num_coefficients {
            old(result).num_coefficients
        } else {
            poly.num_coefficients
        },
        forall|i: int|
            0 <= i < 4 ==> #[trigger] final(result).evals()[i] == if i
                < final(result).num_coefficients {
                ssub(
                    extended(
                        old(result).evals(),
                        old(result).num_coefficients as nat,
                        final(result).num_coefficients as nat,
                    )[i],
                    extended(
                        padded_evals(*poly, poly.num_coefficients as nat),
                        poly.num_coefficients as nat,
                        final(result).num_coefficients as nat,
                    )[i],
                )
            } else {
                old(result).evals()[i]
            },
{
    combine_in_place(result, poly, true)
}

fn combine_in_place<E: SumcheckElement>(
    result: &mut Polynomial<E>,
    poly: &Polynomial<E>,
    subtract: bool,
)
    requires
        old(result).wf(),
        poly.wf(),
    ensures
        final(result).wf(),
        final(result).num_coefficients == if old(result).num_coefficients
            >= poly.num_coefficients {
            old(result).num_coefficients
        } else {
            poly.num_coefficients
        },
        forall|i: int|
            0 <= i < 4 ==> #[trigger] final(result).evals()[i] == if i
                < final(result).num_coefficients {
                if subtract {
                    ssub(
                        extended(
                            old(result).evals(),
                            old(result).num_coefficients as nat,
                            final(result).num_coefficients as nat,
                        )[i],
                        extended(
                            padded_evals(*poly, poly.num_coefficients as nat),
                            poly.num_coefficients as nat,
                            final(result).num_coefficients as nat,
                        )[i],
                    )
                } else {
                    sadd(
                        extended(
                            old(result).evals(),
                            old(result).num_coefficients as nat,
                            final(result).num_coefficients as nat,
                        )[i],
                        extended(
                            padded_evals(*poly, poly.num_coefficients as nat),
                            poly.num_coefficients as nat,
                            final(result).num_coefficients as nat,
                        )[i],
                    )
                }
            } else {
                old(result).evals()[i]
            },
{
    let rn = result.num_coefficients;
    let pn = poly.num_coefficients;
    let m = if rn >= pn {
        rn
    } else {
        pn
    };
    let ghost old_evals = result.evals();
    proof {
        assert(Seq::new(4, |j: int| result.coefficients@[j].vals()) =~= old_evals);
    }
    extrapolate(&mut result.coefficients, rn, m);
    let mut e = padded(poly, pn);
    proof {
        assert(Seq::new(4, |j: int| e@[j].vals()) =~= padded_evals(*poly, pn as nat));
    }
    extrapolate(&mut e, pn, m);
    let ghost ext_r = extended(old_evals, rn as nat, m as nat);
    let mut i: usize = 0;
    while i < m
        invariant
            i <= m,
            m <= 4,
            forall|j: int| 0 <= j < 4 ==> #[trigger] elem_wf(&e@[j]),
            forall|j: int| 0 <= j < 4 ==> #[trigger] elem_wf(&result.coefficients@[j]),
            result.num_coefficients == rn,
            forall|j: int|
                0 <= j < 4 ==> #[trigger] result.coefficients@[j].vals() == if j < i {
                    if subtract {
                        ssub(ext_r[j], e@[j].vals())
                    } else {
                        sadd(ext_r[j], e@[j].vals())
                    }
                } else {
                    ext_r[j]
                },
        decreases m - i,
    {
        assert(elem_wf(&e@[i as int]) && elem_wf(&result.coefficients@[i as int]));
        if subtract {
            result.coefficients[i].sub_assign(&e[i]);
        } else {
            result.coefficients[i].add_assign(&e[i]);
        }
        i = i + 1;
    }
    result.num_coefficients = m;
    proof {
        assert forall|j: int| 0 <= j < 4 implies #[trigger] ext_r[j] == old_evals[j] || j < m by {
        }
    }
}

/// `result := poly_0 + poly_1`: `result` takes the evaluations of `poly_0`
/// (its slots past them stay), then adds `poly_1` in place.
pub fn add_poly_into(
    result: &mut Polynomial<RingElement>,
    poly_0: &Polynomial<RingElement>,
    poly_1: &Polynomial<RingElement>,
)
    requires
        old(result).wf(),
        poly_0.wf(),
        poly_1.wf(),
    ensures
        final(result).wf(),
        final(result).num_coefficients == if poly_0.num_coefficients >= poly_1.num_coefficients {
            poly_0.num_coefficients
        } else {
            poly_1.num_coefficients
        },
        forall|i: int|
            0 <= i < final(result).num_coefficients ==> #[trigger] final(result).evals()[i]
                == sadd(
                extended(
                    copied_evals(*old(result), *poly_0),
                    poly_0.num_coefficients as nat,
                    final(result).num_coefficients as nat,
                )[i],
                extended(
                    padded_evals(*poly_1, poly_1.num_coefficients as nat),
                    poly_1.num_coefficients as nat,
                    final(result).num_coefficients as nat,
                )[i],
            ),
{
    result.copy_from(poly_0);
    proof {
        assert(result.evals() =~= copied_evals(*old(result), *poly_0));
    }
    add_poly_in_place(result, poly_1);
}

/// The evaluations of `target` after copying `source` into it.
pub open spec fn copied_evals<E: SumcheckElement>(target: Polynomial<E>, source: Polynomial<E>) -> Seq<
    Seq<(int, int)>,
> {
    Seq::new(
        4,
        |i: int|
            if i < source.num_coefficients {
                source.evals()[i]
            } else {
                target.evals()[i]
            },
    )
}

} // verus!
