//! The element types a sumcheck runs over: the extension field and the ring.
//! Both are modelled as a fixed number of extension slots with slot-wise
//! operations, so one algebra serves every sumcheck gadget.
use vstd::prelude::*;
use crate::common::algebra::{pconst, sadd, sconst, smul, ssub, swf};

verus! {

/// Arithmetic shared by the sumcheck element types.
pub trait SumcheckElement: Sized {
    /// Number of extension slots of the type.
    spec fn width() -> nat;

    /// The slots of the value.
    spec fn vals(&self) -> Seq<(int, int)>;

    proof fn lemma_width_positive()
        ensures
            Self::width() > 0,
    ;

    fn zero() -> (r: Self)
        ensures
            r.vals().len() == Self::width() && swf(r.vals()),
            r.vals() == sconst(Self::width(), (0, 0)),
    ;

    fn one() -> (r: Self)
        ensures
            r.vals().len() == Self::width() && swf(r.vals()),
            r.vals() == sconst(Self::width(), (1, 0)),
    ;

    /// The integer `c` reduced into the prime field and embedded in every slot.
    fn constant(c: u64) -> (r: Self)
        ensures
            r.vals().len() == Self::width() && swf(r.vals()),
            r.vals() == sconst(Self::width(), pconst(c as int)),
    ;

    fn duplicate(&self) -> (r: Self)
        requires
            self.vals().len() == Self::width() && swf(self.vals()),
        ensures
            r.vals().len() == Self::width() && swf(r.vals()),
            r.vals() == self.vals(),
    ;

    fn set_from(&mut self, other: &Self)
        requires
            other.vals().len() == Self::width() && swf(other.vals()),
        ensures
            final(self).vals().len() == Self::width() && swf(final(self).vals()),
            final(self).vals() == other.vals(),
    ;

    fn set_zero(&mut self)
        ensures
            final(self).vals().len() == Self::width() && swf(final(self).vals()),
            final(self).vals() == sconst(Self::width(), (0, 0)),
    ;

    fn add_assign(&mut self, other: &Self)
        requires
            old(self).vals().len() == Self::width() && swf(old(self).vals()),
            other.vals().len() == Self::width() && swf(other.vals()),
        ensures
            final(self).vals().len() == Self::width() && swf(final(self).vals()),
            final(self).vals() == sadd(old(self).vals(), other.vals()),
    ;

    fn sub_assign(&mut self, other: &Self)
        requires
            old(self).vals().len() == Self::width() && swf(old(self).vals()),
            other.vals().len() == Self::width() && swf(other.vals()),
        ensures
            final(self).vals().len() == Self::width() && swf(final(self).vals()),
            final(self).vals() == ssub(old(self).vals(), other.vals()),
    ;

    fn mul_assign(&mut self, other: &Self)
        requires
            old(self).vals().len() == Self::width() && swf(old(self).vals()),
            other.vals().len() == Self::width() && swf(other.vals()),
        ensures
            final(self).vals().len() == Self::width() && swf(final(self).vals()),
            final(self).vals() == smul(old(self).vals(), other.vals()),
    ;

    /// Overwrites the value with the product `a * b`.
    fn mul_from(&mut self, a: &Self, b: &Self)
        requires
            a.vals().len() == Self::width() && swf(a.vals()),
            b.vals().len() == Self::width() && swf(b.vals()),
        ensures
            final(self).vals().len() == Self::width() && swf(final(self).vals()),
            final(self).vals() == smul(a.vals(), b.vals()),
    ;
}

/// The value has the type's width and canonical slots.
pub open spec fn elem_wf<E: SumcheckElement>(e: &E) -> bool {
    e.vals().len() == E::width() && swf(e.vals())
}

} // verus!
