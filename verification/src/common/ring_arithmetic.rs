//! The extension field `F_q[i]/(i^2 + 1)` and the ring `R_q`, kept in its
//! split form: one extension slot per quadratic factor of `X^d + 1`.
use vstd::prelude::*;
use crate::common::algebra::{
    lemma_mod_add_sub, lemma_pops_reduced, lemma_reduced_fixed, padd, pconst, pmul, preduced,
    psub, sadd, sconst, smul, ssub, swf,
};
use crate::common::config::{HALF_DEGREE, MOD_Q};
use crate::common::field::{add_mod, fmod, mul_mod, q, sub_mod};
use crate::common::sumcheck_element::SumcheckElement;

verus! {

/// The form a ring element is held in.
#[derive(Clone, Copy, Debug, PartialEq, Eq)]
pub enum Representation {
    /// One extension slot per quadratic factor of `X^d + 1`.
    IncompleteNTT,
}

/// An element `c0 + c1 i` of the quadratic extension.
#[derive(Clone, Copy, Debug, PartialEq, Eq)]
pub struct QuadraticExtension {
    pub coeffs: [u64; 2],
}

impl View for QuadraticExtension {
    type V = (int, int);

    open spec fn view(&self) -> (int, int) {
        (self.coeffs[0] as int, self.coeffs[1] as int)
    }
}

/// Conjugation `c0 + c1 i -> c0 - c1 i` (the Frobenius of the extension).
pub open spec fn pconj(a: (int, int)) -> (int, int) {
    (fmod(a.0), fmod(-a.1))
}

impl QuadraticExtension {
    pub open spec fn wf(&self) -> bool {
        preduced(self@)
    }

    pub fn zero() -> (r: QuadraticExtension)
        ensures
            r.wf(),
            r@ == (0int, 0int),
    {
        QuadraticExtension { coeffs: [0, 0] }
    }

    pub fn one() -> (r: QuadraticExtension)
        ensures
            r.wf(),
            r@ == (1int, 0int),
    {
        QuadraticExtension { coeffs: [1, 0] }
    }

    /// The prime-field element `c mod q`.
    pub fn from_u64(c: u64) -> (r: QuadraticExtension)
        ensures
            r.wf(),
            r@ == pconst(c as int),
    {
        proof {
            lemma_mod_add_sub(c as int, 0);
            lemma_reduced_fixed(0);
        }
        QuadraticExtension { coeffs: [c % MOD_Q, 0] }
    }

    pub fn add(&self, other: &QuadraticExtension) -> (r: QuadraticExtension)
        requires
            self.wf(),
            other.wf(),
        ensures
            r.wf(),
            r@ == padd(self@, other@),
    {
        proof {
            lemma_pops_reduced(self@, other@);
        }
        QuadraticExtension {
            coeffs: [
                add_mod(self.coeffs[0], other.coeffs[0]),
                add_mod(self.coeffs[1], other.coeffs[1]),
            ],
        }
    }

    pub fn sub(&self, other: &QuadraticExtension) -> (r: QuadraticExtension)
        requires
            self.wf(),
            other.wf(),
        ensures
            r.wf(),
            r@ == psub(self@, other@),
    {
        proof {
            lemma_pops_reduced(self@, other@);
        }
        QuadraticExtension {
            coeffs: [
                sub_mod(self.coeffs[0], other.coeffs[0]),
                sub_mod(self.coeffs[1], other.coeffs[1]),
            ],
        }
    }

    pub fn mul(&self, other: &QuadraticExtension) -> (r: QuadraticExtension)
        requires
            self.wf(),
            other.wf(),
        ensures
            r.wf(),
            r@ == pmul(self@, other@),
    {
        let (a0, a1) = (self.coeffs[0], self.coeffs[1]);
        let (b0, b1) = (other.coeffs[0], other.coeffs[1]);
        let t00 = mul_mod(a0, b0);
        let t11 = mul_mod(a1, b1);
        let t01 = mul_mod(a0, b1);
        let t10 = mul_mod(a1, b0);
        proof {
            lemma_mod_add_sub(a0 * b0, a1 * b1);
            lemma_mod_add_sub(a0 * b1, a1 * b0);
            lemma_pops_reduced(self@, other@);
        }
        QuadraticExtension { coeffs: [sub_mod(t00, t11), add_mod(t01, t10)] }
    }

    /// Conjugation `c0 + c1 i -> c0 - c1 i`.
    pub fn conjugate(&self) -> (r: QuadraticExtension)
        requires
            self.wf(),
        ensures
            r.wf(),
            r@ == pconj(self@),
    {
        proof {
            lemma_reduced_fixed(self@.0);
            lemma_mod_add_sub(0, self@.1);
            lemma_mod_add_sub(-self@.1, 0);
        }
        QuadraticExtension { coeffs: [self.coeffs[0], sub_mod(0, self.coeffs[1])] }
    }

    /// Structural equality of two elements.
    pub fn equals(&self, other: &QuadraticExtension) -> (r: bool)
        ensures
            r == (self@ == other@),
    {
        self.coeffs[0] == other.coeffs[0] && self.coeffs[1] == other.coeffs[1]
    }
}

impl SumcheckElement for QuadraticExtension {
    open spec fn width() -> nat {
        1
    }

    open spec fn vals(&self) -> Seq<(int, int)> {
        seq![self@]
    }

    proof fn lemma_width_positive() {
    }

    fn zero() -> (r: Self) {
        let r = QuadraticExtension::zero();
        assert(r.vals() =~= sconst(1, (0, 0)));
        r
    }

    fn one() -> (r: Self) {
        let r = QuadraticExtension::one();
        assert(r.vals() =~= sconst(1, (1, 0)));
        r
    }

    fn constant(c: u64) -> (r: Self) {
        let r = QuadraticExtension::from_u64(c);
        assert(r.vals() =~= sconst(1, pconst(c as int)));
        r
    }

    fn duplicate(&self) -> (r: Self) {
        *self
    }

    fn set_from(&mut self, other: &Self) {
        *self = *other;
    }

    fn set_zero(&mut self) {
        *self = QuadraticExtension::zero();
        assert(self.vals() =~= sconst(1, (0, 0)));
    }

    fn add_assign(&mut self, other: &Self) {
        let ghost a = self.vals();
        assert(preduced(a[0]) && preduced(other.vals()[0]));
        *self = self.add(other);
        assert(self.vals() =~= sadd(a, other.vals()));
    }

    fn sub_assign(&mut self, other: &Self) {
        let ghost a = self.vals();
        assert(preduced(a[0]) && preduced(other.vals()[0]));
        *self = self.sub(other);
        assert(self.vals() =~= ssub(a, other.vals()));
    }

    fn mul_assign(&mut self, other: &Self) {
        let ghost a = self.vals();
        assert(preduced(a[0]) && preduced(other.vals()[0]));
        *self = self.mul(other);
        assert(self.vals() =~= smul(a, other.vals()));
    }

    fn mul_from(&mut self, a: &Self, b: &Self) {
        assert(preduced(a.vals()[0]) && preduced(b.vals()[0]));
        *self = a.mul(b);
        assert(self.vals() =~= smul(a.vals(), b.vals()));
    }
}

} // verus!

verus! {

/// An element of `R_q = Z_q[X]/(X^d + 1)`, held as its `HALF_DEGREE` extension
/// slots (the images under the split of `X^d + 1` into quadratic factors).
#[derive(Clone, Debug, PartialEq, Eq)]
pub struct RingElement {
    pub slots: Vec<QuadraticExtension>,
}

impl View for RingElement {
    type V = Seq<(int, int)>;

    open spec fn view(&self) -> Seq<(int, int)> {
        Seq::new(self.slots@.len(), |j: int| self.slots@[j]@)
    }
}

/// Ring conjugation `X -> X^{-1}`: in the split form it exchanges the slot of a
/// factor with the slot of its conjugate factor and conjugates the value.
pub open spec fn sconj(a: Seq<(int, int)>) -> Seq<(int, int)> {
    Seq::new(a.len(), |j: int| pconj(a[a.len() - 1 - j]))
}

impl RingElement {
    /// Well-formed: `HALF_DEGREE` canonical slots.
    pub open spec fn wf(&self) -> bool {
        self@.len() == HALF_DEGREE && swf(self@)
    }

    /// The element with `value` in every slot.
    fn filled(value: QuadraticExtension) -> (r: RingElement)
        requires
            value.wf(),
        ensures
            r.wf(),
            r@ == sconst(HALF_DEGREE as nat, value@),
    {
        let mut slots: Vec<QuadraticExtension> = Vec::with_capacity(HALF_DEGREE);
        let mut j: usize = 0;
        while j < HALF_DEGREE
            invariant
                j <= HALF_DEGREE,
                slots@.len() == j,
                value.wf(),
                forall|k: int| 0 <= k < j ==> #[trigger] slots@[k] == value,
            decreases HALF_DEGREE - j,
        {
            slots.push(value);
            j = j + 1;
        }
        let r = RingElement { slots };
        assert(r@ =~= sconst(HALF_DEGREE as nat, value@));
        r
    }

    /// The zero element.
    pub fn zero(representation: Representation) -> (r: RingElement)
        ensures
            r.wf(),
            r@ == sconst(HALF_DEGREE as nat, (0, 0)),
    {
        RingElement::filled(QuadraticExtension::zero())
    }

    /// A fresh element, zero until written.
    pub fn new(representation: Representation) -> (r: RingElement)
        ensures
            r.wf(),
            r@ == sconst(HALF_DEGREE as nat, (0, 0)),
    {
        RingElement::zero(representation)
    }

    /// The constant polynomial `c mod q`.
    pub fn constant(c: u64, representation: Representation) -> (r: RingElement)
        ensures
            r.wf(),
            r@ == sconst(HALF_DEGREE as nat, pconst(c as int)),
    {
        RingElement::filled(QuadraticExtension::from_u64(c))
    }

    /// The extension element `value` embedded in the ring (the same value in
    /// every slot).
    pub fn from_quadratic_extension(value: &QuadraticExtension) -> (r: RingElement)
        requires
            value.wf(),
        ensures
            r.wf(),
            r@ == sconst(HALF_DEGREE as nat, value@),
    {
        RingElement::filled(*value)
    }

    /// The slots of the element, in order.
    pub fn split_into_quadratic_extensions(&self) -> (r: Vec<QuadraticExtension>)
        requires
            self.wf(),
        ensures
            r@.len() == HALF_DEGREE,
            forall|j: int| 0 <= j < HALF_DEGREE ==> (#[trigger] r@[j]).wf() && r@[j]@ == self@[j],
    {
        let r = self.duplicate();
        proof {
            assert forall|j: int| 0 <= j < HALF_DEGREE implies (#[trigger] r.slots@[j]).wf()
                && r.slots@[j]@ == self@[j] by {
                assert(preduced(r@[j]));
            }
        }
        r.slots
    }

    /// Copy of the element.
    pub fn duplicate(&self) -> (r: RingElement)
        requires
            self.wf(),
        ensures
            r.wf(),
            r@ == self@,
    {
        let mut slots: Vec<QuadraticExtension> = Vec::with_capacity(HALF_DEGREE);
        let mut j: usize = 0;
        while j < HALF_DEGREE
            invariant
                j <= HALF_DEGREE,
                self.wf(),
                slots@.len() == j,
                forall|k: int| 0 <= k < j ==> #[trigger] slots@[k] == self.slots@[k],
            decreases HALF_DEGREE - j,
        {
            slots.push(self.slots[j]);
            j = j + 1;
        }
        let r = RingElement { slots };
        assert(r@ =~= self@);
        r
    }

    /// Slot-wise combination of two elements; `op` selects sum (0),
    /// difference (1) or product (2).
    fn combine(&self, other: &RingElement, op: u8) -> (r: RingElement)
        requires
            self.wf(),
            other.wf(),
            op <= 2,
        ensures
            r.wf(),
            op == 0 ==> r@ == sadd(self@, other@),
            op == 1 ==> r@ == ssub(self@, other@),
            op == 2 ==> r@ == smul(self@, other@),
    {
        let mut slots: Vec<QuadraticExtension> = Vec::with_capacity(HALF_DEGREE);
        let mut j: usize = 0;
        while j < HALF_DEGREE
            invariant
                j <= HALF_DEGREE,
                self.wf(),
                other.wf(),
                op <= 2,
                slots@.len() == j,
                forall|k: int| 0 <= k < j ==> (#[trigger] slots@[k]).wf(),
                forall|k: int|
                    0 <= k < j ==> op == 0 ==> #[trigger] slots@[k]@ == padd(self@[k], other@[k]),
                forall|k: int|
                    0 <= k < j ==> op == 1 ==> #[trigger] slots@[k]@ == psub(self@[k], other@[k]),
                forall|k: int|
                    0 <= k < j ==> op == 2 ==> #[trigger] slots@[k]@ == pmul(self@[k], other@[k]),
            decreases HALF_DEGREE - j,
        {
            assert(preduced(self@[j as int]) && preduced(other@[j as int]));
            let a = self.slots[j];
            let b = other.slots[j];
            let c = if op == 0 {
                a.add(&b)
            } else if op == 1 {
                a.sub(&b)
            } else {
                a.mul(&b)
            };
            slots.push(c);
            j = j + 1;
        }
        let r = RingElement { slots };
        assert(op == 0 ==> r@ =~= sadd(self@, other@));
        assert(op == 1 ==> r@ =~= ssub(self@, other@));
        assert(op == 2 ==> r@ =~= smul(self@, other@));
        r
    }

    /// The sum `self + other`.
    pub fn add(&self, other: &RingElement) -> (r: RingElement)
        requires
            self.wf(),
            other.wf(),
        ensures
            r.wf(),
            r@ == sadd(self@, other@),
    {
        self.combine(other, 0)
    }

    /// The difference `self - other`.
    pub fn sub(&self, other: &RingElement) -> (r: RingElement)
        requires
            self.wf(),
            other.wf(),
        ensures
            r.wf(),
            r@ == ssub(self@, other@),
    {
        self.combine(other, 1)
    }

    /// The product `self * other`.
    pub fn mul(&self, other: &RingElement) -> (r: RingElement)
        requires
            self.wf(),
            other.wf(),
        ensures
            r.wf(),
            r@ == smul(self@, other@),
    {
        self.combine(other, 2)
    }

    /// The conjugate `sigma_{-1}(self)`.
    pub fn conjugate(&self) -> (r: RingElement)
        requires
            self.wf(),
        ensures
            r.wf(),
            r@ == sconj(self@),
    {
        let mut slots: Vec<QuadraticExtension> = Vec::with_capacity(HALF_DEGREE);
        let mut j: usize = 0;
        while j < HALF_DEGREE
            invariant
                j <= HALF_DEGREE,
                self.wf(),
                slots@.len() == j,
                forall|k: int| 0 <= k < j ==> (#[trigger] slots@[k]).wf(),
                forall|k: int|
                    0 <= k < j ==> #[trigger] slots@[k]@ == pconj(self@[HALF_DEGREE - 1 - k]),
            decreases HALF_DEGREE - j,
        {
            assert(preduced(self@[HALF_DEGREE - 1 - j]));
            slots.push(self.slots[HALF_DEGREE - 1 - j].conjugate());
            j = j + 1;
        }
        let r = RingElement { slots };
        assert(r@ =~= sconj(self@));
        r
    }

    /// Writes the conjugate of `self` into `out`.
    pub fn conjugate_into(&self, out: &mut RingElement)
        requires
            self.wf(),
        ensures
            final(out).wf(),
            final(out)@ == sconj(self@),
    {
        *out = self.conjugate();
    }

    /// Structural equality of two elements.
    pub fn equals(&self, other: &RingElement) -> (r: bool)
        requires
            self.wf(),
            other.wf(),
        ensures
            r == (self@ == other@),
    {
        let mut j: usize = 0;
        while j < HALF_DEGREE
            invariant
                j <= HALF_DEGREE,
                self.wf(),
                other.wf(),
                forall|k: int| 0 <= k < j ==> #[trigger] self@[k] == other@[k],
            decreases HALF_DEGREE - j,
        {
            if !self.slots[j].equals(&other.slots[j]) {
                assert(self@[j as int] != other@[j as int]);
                return false;
            }
            j = j + 1;
        }
        assert(self@ =~= other@);
        true
    }
}

impl SumcheckElement for RingElement {
    open spec fn width() -> nat {
        HALF_DEGREE as nat
    }

    open spec fn vals(&self) -> Seq<(int, int)> {
        self@
    }

    proof fn lemma_width_positive() {
    }

    fn zero() -> (r: Self) {
        RingElement::zero(Representation::IncompleteNTT)
    }

    fn one() -> (r: Self) {
        let r = RingElement::constant(1, Representation::IncompleteNTT);
        proof {
            lemma_reduced_fixed(1);
        }
        r
    }

    fn constant(c: u64) -> (r: Self) {
        RingElement::constant(c, Representation::IncompleteNTT)
    }

    fn duplicate(&self) -> (r: Self) {
        RingElement::duplicate(self)
    }

    fn set_from(&mut self, other: &Self) {
        *self = RingElement::duplicate(other);
    }

    fn set_zero(&mut self) {
        *self = RingElement::zero(Representation::IncompleteNTT);
    }

    fn add_assign(&mut self, other: &Self) {
        *self = self.add(other);
    }

    fn sub_assign(&mut self, other: &Self) {
        *self = self.sub(other);
    }

    fn mul_assign(&mut self, other: &Self) {
        *self = self.mul(other);
    }

    fn mul_from(&mut self, a: &Self, b: &Self) {
        *self = a.mul(b);
    }
}

} // verus!
