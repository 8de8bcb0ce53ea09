//! The sumcheck gadget of a single multilinear extension, given by its table
//! of values on the hypercube (most significant variable first).
use vstd::prelude::*;
use crate::common::algebra::{lemma_seq_laws, lemma_sops_wf, sadd, smul, ssub, swf};
use crate::common::bits::{ilog2, log2};
use crate::common::config::HALF_DEGREE;
use crate::common::ring_arithmetic::{Representation, RingElement};
use crate::protocol::sumcheck::hypercube_point::HypercubePoint;
use crate::protocol::sumcheck::polynomial::{szero, Polynomial};

verus! {

/// `sum_{i < n} d[off + i]`.
pub open spec fn vsum(d: Seq<Seq<(int, int)>>, off: int, n: nat) -> Seq<(int, int)>
    decreases n,
{
    if n == 0 {
        szero()
    } else {
        sadd(vsum(d, off, (n - 1) as nat), d[off + n - 1])
    }
}

/// `sum_{i < n} (d[i + half] - d[i])`.
pub open spec fn dsum(d: Seq<Seq<(int, int)>>, half: int, n: nat) -> Seq<(int, int)>
    decreases n,
{
    if n == 0 {
        szero()
    } else {
        sadd(dsum(d, half, (n - 1) as nat), ssub(d[n - 1 + half], d[n - 1]))
    }
}

/// The table after fixing the leading variable to `r`:
/// `d'[i] = d[i] + (d[i + half] - d[i]) * r`.
pub open spec fn fold_table(d: Seq<Seq<(int, int)>>, r: Seq<(int, int)>) -> Seq<Seq<(int, int)>> {
    let half = d.len() / 2;
    Seq::new(half, |i: int| sadd(d[i], smul(ssub(d[i + half], d[i]), r)))
}

/// Every entry is a well-formed ring element.
pub open spec fn table_wf(d: Seq<Seq<(int, int)>>) -> bool {
    forall|i: int| 0 <= i < d.len() ==> swf(#[trigger] d[i]) && d[i].len() == HALF_DEGREE
}

/// The gadget for one multilinear extension.
pub struct LinearSumcheck {
    pub data: Vec<RingElement>,
    pub variable_count: usize,
}

impl LinearSumcheck {
    /// The table, slot-wise.
    pub open spec fn table(&self) -> Seq<Seq<(int, int)>> {
        Seq::new(self.data@.len(), |i: int| self.data@[i]@)
    }

    /// Number of variables still to be fixed.
    pub open spec fn variables(&self) -> nat {
        self.variable_count as nat
    }

    /// Every entry is a ring element.
    pub open spec fn wf(&self) -> bool {
        forall|i: int| 0 <= i < self.data@.len() ==> (#[trigger] self.data@[i]).wf()
    }

    /// A zero table of `count` entries over `log2(count)` variables; fill it
    /// with [`Self::from`].
    pub fn new(count: usize, representation: Representation) -> (r: LinearSumcheck)
        requires
            count > 0,
        ensures
            r.wf(),
            r.data@.len() == count,
            r.variables() == log2(count as nat),
            forall|i: int| 0 <= i < count ==> #[trigger] r.data@[i]@ == szero(),
    {
        let mut data: Vec<RingElement> = Vec::with_capacity(count);
        let mut i: usize = 0;
        while i < count
            invariant
                i <= count,
                data@.len() == i,
                forall|k: int| 0 <= k < i ==> (#[trigger] data@[k]).wf() && data@[k]@ == szero(),
            decreases count - i,
        {
            data.push(RingElement::zero(representation));
            i = i + 1;
        }
        LinearSumcheck { data, variable_count: ilog2(count) }
    }

    /// Loads the table from `src`, which must have the table's length.
    pub fn from(&mut self, src: &Vec<RingElement>)
        requires
            src@.len() == old(self).data@.len(),
            forall|i: int| 0 <= i < src@.len() ==> (#[trigger] src@[i]).wf(),
        ensures
            final(self).wf(),
            final(self).table() == Seq::new(src@.len(), |i: int| src@[i]@),
            final(self).variables() == old(self).variables(),
    {
        let n = src.len();
        let mut data: Vec<RingElement> = Vec::with_capacity(n);
        let mut i: usize = 0;
        while i < n
            invariant
                i <= n,
                n == src@.len(),
                forall|k: int| 0 <= k < n ==> (#[trigger] src@[k]).wf(),
                data@.len() == i,
                forall|k: int| 0 <= k < i ==> (#[trigger] data@[k]).wf() && data@[k]@ == src@[k]@,
            decreases n - i,
        {
            data.push(src[i].duplicate());
            i = i + 1;
        }
        self.data = data;
        assert(self.table() =~= Seq::new(src@.len(), |i: int| src@[i]@));
    }

    /// The table entry at a vertex.
    pub fn index(&self, index: HypercubePoint) -> (r: &RingElement)
        requires
            index.coordinates < self.data@.len(),
        ensures
            r == &self.data@[index.coordinates as int],
    {
        &self.data[index.coordinates]
    }

    /// Number of variables still to be fixed.
    pub fn get_variable_count(&self) -> (r: usize)
        ensures
            r == self.variables(),
    {
        self.variable_count
    }

    /// The round polynomial restricted to one vertex of the remaining
    /// variables: `d[p] + (d[p + half] - d[p]) x`, in monomial form.
    pub fn univariate_polynomial_at_point_into(&self, point: &HypercubePoint, polynomial: &mut Polynomial)
        requires
            self.wf(),
            old(polynomial).wf(),
            point.coordinates + self.data@.len() / 2 < self.data@.len(),
        ensures
            final(polynomial).wf(),
            final(polynomial).num_coefficients == 2,
            final(polynomial).coefficients[0]@ == self.table()[point.coordinates as int],
            final(polynomial).coefficients[1]@ == ssub(
                self.table()[point.coordinates + self.data@.len() / 2],
                self.table()[point.coordinates as int],
            ),
            final(polynomial).coefficients[2] == old(polynomial).coefficients[2],
            final(polynomial).coefficients[3] == old(polynomial).coefficients[3],
    {
        let half = self.data.len() / 2;
        let p = point.coordinates;
        polynomial.coefficients[0] = self.data[p].duplicate();
        polynomial.coefficients[1] = self.data[p + half].sub(&self.data[p]);
        polynomial.num_coefficients = 2;
    }

    /// The round polynomial `sum_p (d[p] + (d[p + half] - d[p]) x)` over the
    /// lower half of the table, written into the two lowest coefficients of
    /// `polynomial` (its other coefficients and its active count are kept).
    pub fn univariate_polynomial_into(&self, polynomial: &mut Polynomial)
        requires
            self.wf(),
            old(polynomial).wf(),
        ensures
            final(polynomial).wf(),
            final(polynomial).num_coefficients == old(polynomial).num_coefficients,
            final(polynomial).coefficients[0]@ == vsum(self.table(), 0, (self.data@.len() / 2) as nat),
            final(polynomial).coefficients[1]@ == dsum(
                self.table(),
                (self.data@.len() / 2) as int,
                (self.data@.len() / 2) as nat,
            ),
            final(polynomial).coefficients[2] == old(polynomial).coefficients[2],
            final(polynomial).coefficients[3] == old(polynomial).coefficients[3],
    {
        let ghost d = self.table();
        let mut temp = Polynomial::new(2, Representation::IncompleteNTT);
        polynomial.coefficients[0] = RingElement::zero(Representation::IncompleteNTT);
        polynomial.coefficients[1] = RingElement::zero(Representation::IncompleteNTT);
        let half = self.data.len() / 2;
        let mut i: usize = 0;
        while i < half
            invariant
                self.wf(),
                d == self.table(),
                half == self.data@.len() / 2,
                i <= half,
                temp.wf(),
                polynomial.wf(),
                polynomial.num_coefficients == old(polynomial).num_coefficients,
                polynomial.coefficients[0]@ == vsum(d, 0, i as nat),
                polynomial.coefficients[1]@ == dsum(d, half as int, i as nat),
                polynomial.coefficients[2] == old(polynomial).coefficients[2],
                polynomial.coefficients[3] == old(polynomial).coefficients[3],
            decreases half - i,
        {
            self.univariate_polynomial_at_point_into(&HypercubePoint::new(i), &mut temp);
            let c0 = polynomial.coefficients[0].add(&temp.coefficients[0]);
            let c1 = polynomial.coefficients[1].add(&temp.coefficients[1]);
            polynomial.coefficients[0] = c0;
            polynomial.coefficients[1] = c1;
            i = i + 1;
        }
    }

    /// Fixes the leading variable to `value`: the table halves, entry `i`
    /// becoming `d[i] + (d[i + half] - d[i]) * value`.
    pub fn partial_evaluate(&mut self, value: &RingElement)
        requires
            old(self).wf(),
            value.wf(),
            old(self).data@.len() % 2 == 0,
            old(self).variables() >= 1,
        ensures
            final(self).wf(),
            final(self).table() == fold_table(old(self).table(), value@),
            final(self).variables() == old(self).variables() - 1,
    {
        let ghost d = self.table();
        let n = self.data.len();
        let half = n / 2;
        let mut i: usize = 0;
        while i < half
            invariant
                n == self.data@.len(),
                half == n / 2,
                n % 2 == 0,
                i <= half,
                value.wf(),
                self.wf(),
                d.len() == n,
                self.variable_count == old(self).variable_count,
                forall|k: int| half <= k < n ==> #[trigger] self.data@[k]@ == d[k],
                forall|k: int| i <= k < half ==> #[trigger] self.data@[k]@ == d[k],
                forall|k: int|
                    0 <= k < i ==> #[trigger] self.data@[k]@ == sadd(
                        d[k],
                        smul(ssub(d[k + half], d[k]), value@),
                    ),
            decreases half - i,
        {
            let diff = self.data[i + half].sub(&self.data[i]);
            let scaled = diff.mul(value);
            let updated = self.data[i].add(&scaled);
            self.data.set(i, updated);
            i = i + 1;
        }
        self.data.truncate(half);
        self.variable_count = self.variable_count - 1;
        assert(self.table() =~= fold_table(d, value@));
    }

    /// The single remaining value once every variable is fixed.
    pub fn final_evaluations(&self) -> (r: &RingElement)
        requires
            self.data@.len() == 1,
        ensures
            r == &self.data@[0],
    {
        &self.data[0]
    }
}

} // verus!

verus! {

/// `(a + b) + (c + e) == (a + c) + (b + e)` for ring elements.
pub proof fn lemma_add_swap(
    a: Seq<(int, int)>,
    b: Seq<(int, int)>,
    c: Seq<(int, int)>,
    e: Seq<(int, int)>,
)
    requires
        swf(a),
        swf(b),
        swf(c),
        swf(e),
        a.len() == HALF_DEGREE,
        b.len() == HALF_DEGREE,
        c.len() == HALF_DEGREE,
        e.len() == HALF_DEGREE,
    ensures
        sadd(sadd(a, b), sadd(c, e)) == sadd(sadd(a, c), sadd(b, e)),
{
    lemma_sops_wf(a, b);
    lemma_sops_wf(c, e);
    lemma_sops_wf(b, e);
    lemma_sops_wf(c, b);
    lemma_sops_wf(a, c);
    lemma_seq_laws(a, b, sadd(c, e));
    lemma_seq_laws(b, c, e);
    lemma_seq_laws(c, b, e);
    lemma_seq_laws(a, c, sadd(b, e));
}

proof fn lemma_sums_wf(d: Seq<Seq<(int, int)>>, off: int, half: int, n: nat)
    requires
        table_wf(d),
        0 <= off,
        0 <= half,
        off + n <= d.len(),
        half + n <= d.len(),
    ensures
        swf(vsum(d, off, n)),
        vsum(d, off, n).len() == HALF_DEGREE,
        swf(dsum(d, half, n)),
        dsum(d, half, n).len() == HALF_DEGREE,
    decreases n,
{
    crate::common::algebra::lemma_sconst_wf(HALF_DEGREE as nat, (0, 0));
    if n > 0 {
        lemma_sums_wf(d, off, half, (n - 1) as nat);
        assert(swf(d[off + n - 1]));
        assert(swf(d[n - 1 + half]) && swf(d[n - 1]));
        lemma_sops_wf(vsum(d, off, (n - 1) as nat), d[off + n - 1]);
        lemma_sops_wf(d[n - 1 + half], d[n - 1]);
        lemma_sops_wf(dsum(d, half, (n - 1) as nat), ssub(d[n - 1 + half], d[n - 1]));
    }
}

/// `sum_{i<a} d[i] + sum_{i<b} d[a + i] == sum_{i<a+b} d[i]`.
pub proof fn lemma_vsum_split(d: Seq<Seq<(int, int)>>, a: nat, b: nat)
    requires
        table_wf(d),
        a + b <= d.len(),
    ensures
        sadd(vsum(d, 0, a), vsum(d, a as int, b)) == vsum(d, 0, a + b),
    decreases b,
{
    lemma_sums_wf(d, 0, 0, a);
    crate::common::algebra::lemma_sconst_wf(HALF_DEGREE as nat, (0, 0));
    if b == 0 {
        lemma_seq_laws(vsum(d, 0, a), szero(), szero());
    } else {
        lemma_vsum_split(d, a, (b - 1) as nat);
        lemma_sums_wf(d, a as int, 0, (b - 1) as nat);
        assert(swf(d[a + b - 1]));
        lemma_seq_laws(vsum(d, 0, a), vsum(d, a as int, (b - 1) as nat), d[a + b - 1]);
    }
}

proof fn lemma_low_plus_diff(d: Seq<Seq<(int, int)>>, half: nat, m: nat)
    requires
        table_wf(d),
        m <= half,
        half + m <= d.len(),
    ensures
        sadd(vsum(d, 0, m), dsum(d, half as int, m)) == vsum(d, half as int, m),
    decreases m,
{
    crate::common::algebra::lemma_sconst_wf(HALF_DEGREE as nat, (0, 0));
    if m == 0 {
        lemma_seq_laws(szero(), szero(), szero());
    } else {
        let k = m - 1;
        lemma_low_plus_diff(d, half, k as nat);
        lemma_sums_wf(d, 0, half as int, k as nat);
        assert(swf(d[k + half]) && swf(d[k]));
        lemma_sops_wf(d[k + half], d[k]);
        lemma_add_swap(
            vsum(d, 0, k as nat),
            d[k],
            dsum(d, half as int, k as nat),
            ssub(d[k + half], d[k]),
        );
        lemma_seq_laws(ssub(d[k + half], d[k]), d[k], d[k]);
        lemma_seq_laws(d[k], d[k + half], d[k]);
        assert(d[half + m - 1] == d[k + half]);
    }
}

/// Round consistency of the linear gadget: the round polynomial
/// `p(x) = c0 + c1 x` computed by `univariate_polynomial_into` satisfies
/// `p(0) + p(1) = sum of the whole table`.
pub proof fn lemma_round_polynomial_sums_to_table(d: Seq<Seq<(int, int)>>)
    requires
        table_wf(d),
        d.len() % 2 == 0,
    ensures
        ({
            let half = d.len() / 2;
            let c0 = vsum(d, 0, half as nat);
            let c1 = dsum(d, half as int, half as nat);
            sadd(c0, sadd(c0, c1)) == vsum(d, 0, d.len())
        }),
{
    let half = (d.len() / 2) as nat;
    lemma_low_plus_diff(d, half, half);
    lemma_vsum_split(d, half, half);
}

/// After fixing the leading variable to `r`, the table sums to the round
/// polynomial evaluated at `r`: `sum fold_table(d, r) == c0 + c1 r`.
pub proof fn lemma_fold_table_sums_to_round_value(d: Seq<Seq<(int, int)>>, r: Seq<(int, int)>)
    requires
        table_wf(d),
        d.len() % 2 == 0,
        swf(r),
        r.len() == HALF_DEGREE,
    ensures
        ({
            let half = d.len() / 2;
            vsum(fold_table(d, r), 0, half as nat) == sadd(
                vsum(d, 0, half as nat),
                smul(dsum(d, half as int, half as nat), r),
            )
        }),
{
    let half = (d.len() / 2) as nat;
    lemma_fold_prefix(d, r, half);
}

proof fn lemma_fold_prefix(d: Seq<Seq<(int, int)>>, r: Seq<(int, int)>, m: nat)
    requires
        table_wf(d),
        d.len() % 2 == 0,
        m <= d.len() / 2,
        swf(r),
        r.len() == HALF_DEGREE,
    ensures
        ({
            let half = d.len() / 2;
            vsum(fold_table(d, r), 0, m) == sadd(vsum(d, 0, m), smul(dsum(d, half as int, m), r))
        }),
    decreases m,
{
    let half = d.len() / 2;
    let e = fold_table(d, r);
    crate::common::algebra::lemma_sconst_wf(HALF_DEGREE as nat, (0, 0));
    if m == 0 {
        lemma_seq_laws(szero(), r, r);
        lemma_seq_laws(r, szero(), szero());
        lemma_seq_laws(szero(), szero(), szero());
    } else {
        let k = m - 1;
        lemma_fold_prefix(d, r, k as nat);
        lemma_sums_wf(d, 0, half as int, k as nat);
        let v = vsum(d, 0, k as nat);
        let ds = dsum(d, half as int, k as nat);
        assert(swf(d[k + half]) && swf(d[k]));
        let delta = ssub(d[k + half], d[k]);
        lemma_sops_wf(d[k + half], d[k]);
        lemma_sops_wf(ds, r);
        lemma_sops_wf(delta, r);
        lemma_sops_wf(ds, delta);
        assert(e[k] == sadd(d[k], smul(delta, r)));
        lemma_add_swap(v, smul(ds, r), d[k], smul(delta, r));
        lemma_seq_laws(r, ds, delta);
        lemma_seq_laws(ds, r, r);
        lemma_seq_laws(delta, r, r);
        lemma_seq_laws(sadd(ds, delta), r, r);
    }
}

} // verus!
