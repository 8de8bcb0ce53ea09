//! The interfaces the sumcheck gadgets share: a round polynomial, the data a
//! sumcheck folds variable by variable, and the data that produces a round
//! polynomial.
use vstd::prelude::*;
use crate::common::algebra::{sadd, smul};
use crate::common::ring_arithmetic::RingElement;
use crate::protocol::sumcheck::inner_product::{round_coeff, InnerProductSumcheck, QuadraticPolynomial};
use crate::protocol::sumcheck::linear::{dsum, fold_table, vsum, LinearSumcheck};
use crate::protocol::sumcheck::polynomial::{meval, msum};

verus! {

/// A round polynomial, read at zero, at one and at a point.
pub trait Polynomial {
    /// The polynomial can be read.
    spec fn readable(&self) -> bool;

    fn at_zero(&self) -> (r: RingElement)
        requires
            self.readable(),
    ;

    fn at_one(&self) -> (r: RingElement)
        requires
            self.readable(),
    ;

    fn at(&self, x: &RingElement) -> (r: RingElement)
        requires
            self.readable(),
            x.wf(),
    ;
}

/// The data of a sumcheck over ring elements, folded one variable at a time.
pub trait SumcheckBaseData {
    /// The data can be folded once more at a ring element.
    spec fn foldable(&self) -> bool;

    /// Every variable has been folded.
    spec fn folded(&self) -> bool;

    fn get_variable_count(&self) -> usize;

    fn partial_evaluate(&mut self, value: &RingElement)
        requires
            old(self).foldable(),
            value.wf(),
    ;

    fn final_evaluations(&self) -> &RingElement
        requires
            self.folded(),
    ;
}

/// Data that writes its round polynomial into a polynomial of type
/// `PolynomialType`.
pub trait HighOrderSumcheckData<PolynomialType, FinalEvalType> {
    /// The data and the target can make a round polynomial.
    spec fn fits(&self, polynomial: &PolynomialType) -> bool;

    fn univariate_polynomial_into(&self, polynomial: &mut PolynomialType)
        requires
            self.fits(old(polynomial)),
    ;
}

impl Polynomial for crate::protocol::sumcheck::polynomial::Polynomial {
    open spec fn readable(&self) -> bool {
        self.wf()
    }

    fn at_zero(&self) -> (r: RingElement)
        ensures
            r.wf(),
            r@ == self.coefficients[0]@,
    {
        crate::protocol::sumcheck::polynomial::Polynomial::at_zero(self)
    }

    fn at_one(&self) -> (r: RingElement)
        ensures
            r.wf(),
            r@ == msum(self.coeffs(), self.num_coefficients as nat),
    {
        crate::protocol::sumcheck::polynomial::Polynomial::at_one(self)
    }

    fn at(&self, x: &RingElement) -> (r: RingElement)
        ensures
            r.wf(),
            r@ == meval(self.coeffs(), self.num_coefficients as nat, x@),
    {
        crate::protocol::sumcheck::polynomial::Polynomial::at(self, x)
    }
}

impl Polynomial for QuadraticPolynomial {
    open spec fn readable(&self) -> bool {
        self.wf()
    }

    fn at_zero(&self) -> (r: RingElement)
        ensures
            r.wf(),
            r@ == self.coefficients[0]@,
    {
        QuadraticPolynomial::at_zero(self)
    }

    fn at_one(&self) -> (r: RingElement)
        ensures
            r.wf(),
            r@ == sadd(sadd(self.coefficients[0]@, self.coefficients[1]@), self.coefficients[2]@),
    {
        QuadraticPolynomial::at_one(self)
    }

    fn at(&self, x: &RingElement) -> (r: RingElement)
        ensures
            r.wf(),
            r@ == sadd(
                sadd(self.coefficients[0]@, smul(x@, self.coefficients[1]@)),
                smul(smul(x@, x@), self.coefficients[2]@),
            ),
    {
        QuadraticPolynomial::at(self, x)
    }
}

impl SumcheckBaseData for LinearSumcheck {
    open spec fn foldable(&self) -> bool {
        self.wf() && self.data@.len() % 2 == 0 && self.variables() >= 1
    }

    open spec fn folded(&self) -> bool {
        self.data@.len() == 1
    }

    fn get_variable_count(&self) -> (r: usize)
        ensures
            r == self.variables(),
    {
        LinearSumcheck::get_variable_count(self)
    }

    fn partial_evaluate(&mut self, value: &RingElement)
        ensures
            final(self).wf(),
            final(self).table() == fold_table(old(self).table(), value@),
            final(self).variables() == old(self).variables() - 1,
    {
        LinearSumcheck::partial_evaluate(self, value)
    }

    fn final_evaluations(&self) -> (r: &RingElement)
        ensures
            r == &self.data@[0],
    {
        LinearSumcheck::final_evaluations(self)
    }
}

impl HighOrderSumcheckData<crate::protocol::sumcheck::polynomial::Polynomial, RingElement> for LinearSumcheck {
    open spec fn fits(&self, polynomial: &crate::protocol::sumcheck::polynomial::Polynomial) -> bool {
        self.wf() && polynomial.wf()
    }

    fn univariate_polynomial_into(&self, polynomial: &mut crate::protocol::sumcheck::polynomial::Polynomial)
        ensures
            final(polynomial).wf(),
            final(polynomial).num_coefficients == old(polynomial).num_coefficients,
            final(polynomial).coefficients[0]@ == vsum(self.table(), 0, (self.data@.len() / 2) as nat),
            final(polynomial).coefficients[1]@ == dsum(
                self.table(),
                (self.data@.len() / 2) as int,
                (self.data@.len() / 2) as nat,
            ),
            final(polynomial).coefficients[2] == old(polynomial).coefficients[2],
            final(polynomial).coefficients[3] == old(polynomial).coefficients[3],
    {
        LinearSumcheck::univariate_polynomial_into(self, polynomial)
    }
}

impl<'a> HighOrderSumcheckData<QuadraticPolynomial, (RingElement, RingElement)> for InnerProductSumcheck<'a> {
    open spec fn fits(&self, polynomial: &QuadraticPolynomial) -> bool {
        &&& self.sumcheck_0.wf()
        &&& self.sumcheck_1.wf()
        &&& self.sumcheck_0.data@.len() == self.sumcheck_1.data@.len()
    }

    fn univariate_polynomial_into(&self, polynomial: &mut QuadraticPolynomial)
        ensures
            final(polynomial).wf(),
            forall|k: int|
                0 <= k < 3 ==> #[trigger] final(polynomial).coefficients[k]@ == round_coeff(
                    self.sumcheck_0.table(),
                    self.sumcheck_1.table(),
                    (self.sumcheck_0.data@.len() / 2) as int,
                    k,
                    (self.sumcheck_0.data@.len() / 2) as nat,
                ),
    {
        InnerProductSumcheck::univariate_polynomial_into(self, polynomial)
    }
}

} // verus!
