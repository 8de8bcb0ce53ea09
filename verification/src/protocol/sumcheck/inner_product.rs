//! The sumcheck gadget of the inner product `sum_z A(z) B(z)` of two
//! multilinear extensions that share their variables.
use vstd::prelude::*;
use crate::common::algebra::{lemma_seq_laws, lemma_sops_wf, sadd, smul, ssub, swf};
use crate::common::config::HALF_DEGREE;
use crate::common::ring_arithmetic::{Representation, RingElement};
use crate::protocol::sumcheck::linear::{lemma_add_swap, table_wf, LinearSumcheck};
use crate::protocol::sumcheck::polynomial::szero;

verus! {

/// `sum_{i < n} a[off + i] b[off + i]`.
pub open spec fn psum(a: Seq<Seq<(int, int)>>, b: Seq<Seq<(int, int)>>, off: int, n: nat) -> Seq<
    (int, int),
>
    decreases n,
{
    if n == 0 {
        szero()
    } else {
        sadd(psum(a, b, off, (n - 1) as nat), smul(a[off + n - 1], b[off + n - 1]))
    }
}

/// Coefficient `k` of the round polynomial contributed by the first `n`
/// vertices: `k = 0` gives `a0 b0`, `k = 1` gives `da b0 + db a0`, `k = 2`
/// gives `da db`, with `a0 = a[i]`, `da = a[i + half] - a[i]` and likewise for `b`.
pub open spec fn round_coeff(
    a: Seq<Seq<(int, int)>>,
    b: Seq<Seq<(int, int)>>,
    half: int,
    k: int,
    n: nat,
) -> Seq<(int, int)>
    decreases n,
{
    if n == 0 {
        szero()
    } else {
        let i = n - 1;
        let da = ssub(a[i + half], a[i]);
        let db = ssub(b[i + half], b[i]);
        let term = if k == 0 {
            smul(a[i], b[i])
        } else if k == 1 {
            sadd(smul(da, b[i]), smul(db, a[i]))
        } else {
            smul(da, db)
        };
        sadd(round_coeff(a, b, half, k, (n - 1) as nat), term)
    }
}

/// Degree-two polynomial `c0 + c1 x + c2 x^2` over the ring.
pub struct QuadraticPolynomial {
    pub coefficients: [RingElement; 3],
}

impl QuadraticPolynomial {
    pub open spec fn wf(&self) -> bool {
        forall|i: int| 0 <= i < 3 ==> (#[trigger] self.coefficients[i]).wf()
    }

    /// The zero polynomial.
    pub fn new(representation: Representation) -> (r: QuadraticPolynomial)
        ensures
            r.wf(),
            forall|i: int| 0 <= i < 3 ==> #[trigger] r.coefficients[i]@ == szero(),
    {
        QuadraticPolynomial {
            coefficients: [
                RingElement::zero(representation),
                RingElement::zero(representation),
                RingElement::zero(representation),
            ],
        }
    }

    /// The value at zero.
    pub fn at_zero(&self) -> (r: RingElement)
        requires
            self.wf(),
        ensures
            r.wf(),
            r@ == self.coefficients[0]@,
    {
        self.coefficients[0].duplicate()
    }

    /// The value at one, `c0 + c1 + c2`.
    pub fn at_one(&self) -> (r: RingElement)
        requires
            self.wf(),
        ensures
            r.wf(),
            r@ == sadd(sadd(self.coefficients[0]@, self.coefficients[1]@), self.coefficients[2]@),
    {
        self.coefficients[0].add(&self.coefficients[1]).add(&self.coefficients[2])
    }

    /// The value `c0 + x c1 + x^2 c2`.
    pub fn at(&self, x: &RingElement) -> (r: RingElement)
        requires
            self.wf(),
            x.wf(),
        ensures
            r.wf(),
            r@ == sadd(
                sadd(self.coefficients[0]@, smul(x@, self.coefficients[1]@)),
                smul(smul(x@, x@), self.coefficients[2]@),
            ),
    {
        let x_squared = x.mul(x);
        self.coefficients[0].add(&x.mul(&self.coefficients[1])).add(
            &x_squared.mul(&self.coefficients[2]),
        )
    }
}

/// The inner product gadget over two linear gadgets of one shape.
pub struct InnerProductSumcheck<'a> {
    pub sumcheck_0: &'a LinearSumcheck,
    pub sumcheck_1: &'a LinearSumcheck,
}

impl<'a> InnerProductSumcheck<'a> {
    /// Pairs two linear gadgets with the same table length and variable count.
    pub fn new(sumcheck_0: &'a LinearSumcheck, sumcheck_1: &'a LinearSumcheck) -> (r:
        InnerProductSumcheck<'a>)
        requires
            sumcheck_0.data@.len() == sumcheck_1.data@.len(),
            sumcheck_0.data@.len() > 0,
            sumcheck_0.variables() == sumcheck_1.variables(),
        ensures
            r.sumcheck_0 == sumcheck_0,
            r.sumcheck_1 == sumcheck_1,
    {
        InnerProductSumcheck { sumcheck_0, sumcheck_1 }
    }

    /// The round polynomial `sum_p (a0 + da x)(b0 + db x)` over the lower half.
    pub fn univariate_polynomial_into(&self, polynomial: &mut QuadraticPolynomial)
        requires
            self.sumcheck_0.wf(),
            self.sumcheck_1.wf(),
            self.sumcheck_0.data@.len() == self.sumcheck_1.data@.len(),
        ensures
            final(polynomial).wf(),
            forall|k: int|
                0 <= k < 3 ==> #[trigger] final(polynomial).coefficients[k]@ == round_coeff(
                    self.sumcheck_0.table(),
                    self.sumcheck_1.table(),
                    (self.sumcheck_0.data@.len() / 2) as int,
                    k,
                    (self.sumcheck_0.data@.len() / 2) as nat,
                ),
    {
        let ghost a = self.sumcheck_0.table();
        let ghost b = self.sumcheck_1.table();
        polynomial.coefficients = [
            RingElement::zero(Representation::IncompleteNTT),
            RingElement::zero(Representation::IncompleteNTT),
            RingElement::zero(Representation::IncompleteNTT),
        ];
        let sc0 = self.sumcheck_0;
        let sc1 = self.sumcheck_1;
        let n = sc0.data.len();
        let half = n / 2;
        let mut i: usize = 0;
        while i < half
            invariant
                sc0.wf(),
                sc1.wf(),
                a == sc0.table(),
                b == sc1.table(),
                sc0.data@.len() == sc1.data@.len(),
                half == sc0.data@.len() / 2,
                i <= half,
                sc0.data@.len() <= usize::MAX,
                polynomial.wf(),
                forall|k: int|
                    0 <= k < 3 ==> #[trigger] polynomial.coefficients[k]@ == round_coeff(
                        a,
                        b,
                        half as int,
                        k,
                        i as nat,
                    ),
            decreases half - i,
        {
            let a0 = &sc0.data[i];
            let a1 = &sc0.data[i + half];
            let b0 = &sc1.data[i];
            let b1 = &sc1.data[i + half];
            let a_diff = a1.sub(a0);
            let b_diff = b1.sub(b0);
            let c2 = polynomial.coefficients[2].add(&a_diff.mul(&b_diff));
            let c1 = polynomial.coefficients[1].add(&a_diff.mul(b0)).add(&b_diff.mul(a0));
            let c0 = polynomial.coefficients[0].add(&a0.mul(b0));
            proof {
                let ghost p1 = polynomial.coefficients[1]@;
                lemma_sops_wf(a_diff@, b0@);
                lemma_sops_wf(b_diff@, a0@);
                lemma_seq_laws(p1, smul(a_diff@, b0@), smul(b_diff@, a0@));
            }
            polynomial.coefficients[2] = c2;
            polynomial.coefficients[1] = c1;
            polynomial.coefficients[0] = c0;
            i = i + 1;
        }
    }
}

} // verus!

verus! {

/// Ring elements: canonical slots, `HALF_DEGREE` of them.
pub open spec fn rel(x: Seq<(int, int)>) -> bool {
    swf(x) && x.len() == HALF_DEGREE
}

/// `u v + (w - u) v == w v` — the shape of both partial sums below.
proof fn lemma_mul_telescope(u: Seq<(int, int)>, w: Seq<(int, int)>, v: Seq<(int, int)>)
    requires
        rel(u),
        rel(w),
        rel(v),
    ensures
        sadd(smul(u, v), smul(ssub(w, u), v)) == smul(w, v),
{
    lemma_sops_wf(w, u);
    lemma_sops_wf(u, v);
    lemma_sops_wf(w, v);
    lemma_seq_laws(v, u, ssub(w, u));
    lemma_seq_laws(u, v, v);
    lemma_seq_laws(ssub(w, u), v, v);
    lemma_seq_laws(u, w, u);
    lemma_seq_laws(ssub(w, u), u, u);
    lemma_seq_laws(w, v, v);
}

/// `(x + (p + q)) + z == (x + q) + (p + z)`.
proof fn lemma_regroup(x: Seq<(int, int)>, p: Seq<(int, int)>, q: Seq<(int, int)>, z: Seq<(int, int)>)
    requires
        rel(x),
        rel(p),
        rel(q),
        rel(z),
    ensures
        sadd(sadd(x, sadd(p, q)), z) == sadd(sadd(x, q), sadd(p, z)),
{
    lemma_sops_wf(p, q);
    lemma_sops_wf(q, p);
    lemma_sops_wf(x, q);
    lemma_sops_wf(p, z);
    lemma_seq_laws(p, q, z);
    lemma_seq_laws(x, q, p);
    lemma_seq_laws(sadd(x, q), p, z);
}

/// `a0 b0 + (da b0 + db a0) + da db == a1 b1` with `da = a1 - a0`, `db = b1 - b0`.
pub proof fn lemma_vertex_product(
    a0: Seq<(int, int)>,
    a1: Seq<(int, int)>,
    b0: Seq<(int, int)>,
    b1: Seq<(int, int)>,
)
    requires
        rel(a0),
        rel(a1),
        rel(b0),
        rel(b1),
    ensures
        ({
            let da = ssub(a1, a0);
            let db = ssub(b1, b0);
            sadd(sadd(smul(a0, b0), sadd(smul(da, b0), smul(db, a0))), smul(da, db)) == smul(
                a1,
                b1,
            )
        }),
{
    let da = ssub(a1, a0);
    let db = ssub(b1, b0);
    lemma_sops_wf(a1, a0);
    lemma_sops_wf(b1, b0);
    lemma_sops_wf(a0, b0);
    lemma_sops_wf(da, b0);
    lemma_sops_wf(db, a0);
    lemma_sops_wf(da, db);
    lemma_regroup(smul(a0, b0), smul(da, b0), smul(db, a0), smul(da, db));
    // da b0 + da db == da b1, as b0 da + (b1 - b0) da
    assert(sadd(smul(da, b0), smul(da, db)) == smul(da, b1)) by {
        lemma_mul_telescope(b0, b1, da);
        lemma_seq_laws(b0, da, da);
        lemma_seq_laws(db, da, da);
        lemma_seq_laws(b1, da, da);
    }
    // a0 b0 + db a0 == a0 b1
    assert(sadd(smul(a0, b0), smul(db, a0)) == smul(a0, b1)) by {
        lemma_mul_telescope(b0, b1, a0);
        lemma_seq_laws(b0, a0, a0);
        lemma_seq_laws(b1, a0, a0);
    }
    // a0 b1 + da b1 == a1 b1
    lemma_mul_telescope(a0, a1, b1);
}

proof fn lemma_psum_wf(a: Seq<Seq<(int, int)>>, b: Seq<Seq<(int, int)>>, off: int, n: nat)
    requires
        table_wf(a),
        table_wf(b),
        0 <= off,
        off + n <= a.len(),
        a.len() == b.len(),
    ensures
        swf(psum(a, b, off, n)),
        psum(a, b, off, n).len() == HALF_DEGREE,
    decreases n,
{
    crate::common::algebra::lemma_sconst_wf(HALF_DEGREE as nat, (0, 0));
    if n > 0 {
        lemma_psum_wf(a, b, off, (n - 1) as nat);
        assert(swf(a[off + n - 1]) && swf(b[off + n - 1]));
        lemma_sops_wf(a[off + n - 1], b[off + n - 1]);
        lemma_sops_wf(psum(a, b, off, (n - 1) as nat), smul(a[off + n - 1], b[off + n - 1]));
    }
}

proof fn lemma_round_coeff_wf(
    a: Seq<Seq<(int, int)>>,
    b: Seq<Seq<(int, int)>>,
    half: int,
    k: int,
    n: nat,
)
    requires
        table_wf(a),
        table_wf(b),
        a.len() == b.len(),
        0 <= half,
        n <= half,
        half + n <= a.len(),
    ensures
        swf(round_coeff(a, b, half, k, n)),
        round_coeff(a, b, half, k, n).len() == HALF_DEGREE,
        k == 0 ==> round_coeff(a, b, half, k, n) == psum(a, b, 0, n),
    decreases n,
{
    crate::common::algebra::lemma_sconst_wf(HALF_DEGREE as nat, (0, 0));
    if n > 0 {
        let i = n - 1;
        lemma_round_coeff_wf(a, b, half, k, (n - 1) as nat);
        assert(swf(a[i + half]) && swf(a[i]) && swf(b[i + half]) && swf(b[i]));
        let da = ssub(a[i + half], a[i]);
        let db = ssub(b[i + half], b[i]);
        lemma_sops_wf(a[i + half], a[i]);
        lemma_sops_wf(b[i + half], b[i]);
        lemma_sops_wf(a[i], b[i]);
        lemma_sops_wf(da, b[i]);
        lemma_sops_wf(db, a[i]);
        lemma_sops_wf(da, db);
        lemma_sops_wf(smul(da, b[i]), smul(db, a[i]));
        let r = round_coeff(a, b, half, k, (n - 1) as nat);
        lemma_sops_wf(r, smul(a[i], b[i]));
        lemma_sops_wf(r, sadd(smul(da, b[i]), smul(db, a[i])));
        lemma_sops_wf(r, smul(da, db));
    }
}

proof fn lemma_upper_sum(a: Seq<Seq<(int, int)>>, b: Seq<Seq<(int, int)>>, half: int, m: nat)
    requires
        table_wf(a),
        table_wf(b),
        a.len() == b.len(),
        0 <= half,
        m <= half,
        half + m <= a.len(),
    ensures
        sadd(
            sadd(round_coeff(a, b, half, 0, m), round_coeff(a, b, half, 1, m)),
            round_coeff(a, b, half, 2, m),
        ) == psum(a, b, half, m),
    decreases m,
{
    crate::common::algebra::lemma_sconst_wf(HALF_DEGREE as nat, (0, 0));
    if m == 0 {
        lemma_seq_laws(szero(), szero(), szero());
    } else {
        let i = m - 1;
        lemma_upper_sum(a, b, half, (m - 1) as nat);
        lemma_round_coeff_wf(a, b, half, 0, (m - 1) as nat);
        lemma_round_coeff_wf(a, b, half, 1, (m - 1) as nat);
        lemma_round_coeff_wf(a, b, half, 2, (m - 1) as nat);
        assert(swf(a[i + half]) && swf(a[i]) && swf(b[i + half]) && swf(b[i]));
        let da = ssub(a[i + half], a[i]);
        let db = ssub(b[i + half], b[i]);
        lemma_sops_wf(a[i + half], a[i]);
        lemma_sops_wf(b[i + half], b[i]);
        lemma_sops_wf(a[i], b[i]);
        lemma_sops_wf(da, b[i]);
        lemma_sops_wf(db, a[i]);
        lemma_sops_wf(da, db);
        lemma_sops_wf(smul(da, b[i]), smul(db, a[i]));
        let r0 = round_coeff(a, b, half, 0, (m - 1) as nat);
        let r1 = round_coeff(a, b, half, 1, (m - 1) as nat);
        let r2 = round_coeff(a, b, half, 2, (m - 1) as nat);
        let t0 = smul(a[i], b[i]);
        let t1 = sadd(smul(da, b[i]), smul(db, a[i]));
        let t2 = smul(da, db);
        lemma_add_swap(r0, t0, r1, t1);
        lemma_sops_wf(r0, r1);
        lemma_sops_wf(t0, t1);
        lemma_add_swap(sadd(r0, r1), sadd(t0, t1), r2, t2);
        lemma_vertex_product(a[i], a[i + half], b[i], b[i + half]);
        assert(a[half + m - 1] == a[i + half]);
        assert(b[half + m - 1] == b[i + half]);
    }
}

/// `sum_{i<x} a_i b_i + sum_{i<y} a_{x+i} b_{x+i} == sum_{i<x+y} a_i b_i`.
proof fn lemma_psum_split(a: Seq<Seq<(int, int)>>, b: Seq<Seq<(int, int)>>, x: nat, y: nat)
    requires
        table_wf(a),
        table_wf(b),
        a.len() == b.len(),
        x + y <= a.len(),
    ensures
        sadd(psum(a, b, 0, x), psum(a, b, x as int, y)) == psum(a, b, 0, x + y),
    decreases y,
{
    lemma_psum_wf(a, b, 0, x);
    crate::common::algebra::lemma_sconst_wf(HALF_DEGREE as nat, (0, 0));
    if y == 0 {
        lemma_seq_laws(psum(a, b, 0, x), szero(), szero());
    } else {
        lemma_psum_split(a, b, x, (y - 1) as nat);
        lemma_psum_wf(a, b, x as int, (y - 1) as nat);
        assert(swf(a[x + y - 1]) && swf(b[x + y - 1]));
        lemma_sops_wf(a[x + y - 1], b[x + y - 1]);
        lemma_seq_laws(
            psum(a, b, 0, x),
            psum(a, b, x as int, (y - 1) as nat),
            smul(a[x + y - 1], b[x + y - 1]),
        );
    }
}

/// Round consistency of the inner product gadget: the round polynomial `p`
/// of `univariate_polynomial_into` satisfies `p(0) + p(1) = sum_z a(z) b(z)`
/// over the whole table.
pub proof fn lemma_inner_product_round_consistency(a: Seq<Seq<(int, int)>>, b: Seq<Seq<(int, int)>>)
    requires
        table_wf(a),
        table_wf(b),
        a.len() == b.len(),
        a.len() % 2 == 0,
    ensures
        ({
            let half = a.len() / 2;
            let c0 = round_coeff(a, b, half as int, 0, half as nat);
            let c1 = round_coeff(a, b, half as int, 1, half as nat);
            let c2 = round_coeff(a, b, half as int, 2, half as nat);
            sadd(c0, sadd(sadd(c0, c1), c2)) == psum(a, b, 0, a.len())
        }),
{
    let half = (a.len() / 2) as nat;
    lemma_upper_sum(a, b, half as int, half);
    lemma_round_coeff_wf(a, b, half as int, 0, half);
    lemma_psum_split(a, b, half, half);
}

} // verus!
