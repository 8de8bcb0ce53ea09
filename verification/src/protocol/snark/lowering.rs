//! Public weights, claim expressions and the field helpers that lower them.
use vstd::prelude::*;
use vstd::arithmetic::power2::*;
use crate::common::algebra::{lemma_fmod_pair_fixed, lemma_pmul_laws, pconst, pmul, psub, sconst};
use crate::common::arithmetic::{checked_inv_mod, has_inverse, inv_mod};
use crate::common::config::{HALF_DEGREE, MOD_Q};
use crate::common::field::{add_mod, fmod, mul_mod, q};
use crate::common::hash::{challenge_at, HashWrapper};
use crate::common::structured_row::StructuredRow;
use crate::protocol::sumcheck_utils::polynomial::Polynomial;
use crate::common::ring_arithmetic::{QuadraticExtension, Representation, RingElement};
use crate::protocol::commitment::Prefix;
use crate::protocol::snark::tensor::{
    eq_val, layer_factor, lemma_one_identity, lemma_tensor_pow2_split, lemma_tensor_val_reduced,
    qe_all_wf, qe_seq, tensor_val,
};

verus! {

/// A public weight vector: `weights` gives its shape, and `prefix_len` /
/// `suffix_len` make it constant on the top / bottom variables so that it
/// varies over the middle ones only (`(0, 0)` spans the full cube).
#[derive(Clone)]
pub struct PublicFactor {
    pub prefix_len: usize,
    pub suffix_len: usize,
    pub weights: Weights,
}

/// Weight data over the ring or over the extension field.
#[derive(Clone)]
pub enum Coeffs {
    Ring(Vec<RingElement>),
    Field(Vec<QuadraticExtension>),
}

/// The shape of a public weight.
#[derive(Clone)]
pub enum Weights {
    /// Product eq-tensor with layers `[1 - a, a]`, most-significant first.
    Tensor(Coeffs),
    /// An arbitrary table over the middle variables.
    Dense(Coeffs),
    /// `eq(bits, .)` over the leading `length` variables.
    Selector { bits: usize, length: usize },
}


impl PublicFactor {
    fn full(weights: Weights) -> (r: PublicFactor)
        ensures
            r == (PublicFactor { prefix_len: 0, suffix_len: 0, weights }),
    {
        PublicFactor { prefix_len: 0, suffix_len: 0, weights }
    }

    /// Eq-tensor with ring layers, over the full cube.
    pub fn tensor_ring(layers: Vec<RingElement>) -> (r: PublicFactor)
        ensures
            r == (PublicFactor {
                prefix_len: 0,
                suffix_len: 0,
                weights: Weights::Tensor(Coeffs::Ring(layers)),
            }),
    {
        PublicFactor::full(Weights::Tensor(Coeffs::Ring(layers)))
    }

    /// Eq-tensor with field layers, over the full cube.
    pub fn tensor_field(layers: Vec<QuadraticExtension>) -> (r: PublicFactor)
        ensures
            r == (PublicFactor {
                prefix_len: 0,
                suffix_len: 0,
                weights: Weights::Tensor(Coeffs::Field(layers)),
            }),
    {
        PublicFactor::full(Weights::Tensor(Coeffs::Field(layers)))
    }

    /// Arbitrary ring table over the full cube.
    pub fn dense_ring(table: Vec<RingElement>) -> (r: PublicFactor)
        ensures
            r == (PublicFactor {
                prefix_len: 0,
                suffix_len: 0,
                weights: Weights::Dense(Coeffs::Ring(table)),
            }),
    {
        PublicFactor::full(Weights::Dense(Coeffs::Ring(table)))
    }

    /// Arbitrary field table over the full cube.
    pub fn dense_field(table: Vec<QuadraticExtension>) -> (r: PublicFactor)
        ensures
            r == (PublicFactor {
                prefix_len: 0,
                suffix_len: 0,
                weights: Weights::Dense(Coeffs::Field(table)),
            }),
    {
        PublicFactor::full(Weights::Dense(Coeffs::Field(table)))
    }

    /// `eq(bits, .)` over the leading `length` variables.
    pub fn selector(bits: usize, length: usize) -> (r: PublicFactor)
        ensures
            r == (PublicFactor {
                prefix_len: 0,
                suffix_len: 0,
                weights: Weights::Selector { bits, length },
            }),
    {
        PublicFactor::full(Weights::Selector { bits, length })
    }

    /// Place the weights over the middle variables: constant on the top
    /// `prefix_len` and the bottom `suffix_len` variables.
    pub fn over_middle(self, prefix_len: usize, suffix_len: usize) -> (r: PublicFactor)
        ensures
            r == (PublicFactor { prefix_len, suffix_len, weights: self.weights }),
    {
        PublicFactor { prefix_len, suffix_len, weights: self.weights }
    }
}

/// Transcript challenges for `n` tensor layers, most-significant first.
pub fn sample_qe_layers(hw: &mut HashWrapper, n: usize) -> (r: Vec<QuadraticExtension>)
    requires
        old(hw)@.squeezed + n < u64::MAX,
    ensures
        r@.len() == n,
        qe_all_wf(r@),
        forall|k: int|
            0 <= k < n ==> #[trigger] r@[k]@ == challenge_at(
                old(hw)@.absorbed,
                old(hw)@.squeezed + k as nat,
            ),
        final(hw)@.absorbed == old(hw)@.absorbed,
        final(hw)@.squeezed == old(hw)@.squeezed + n,
{
    let mut out: Vec<QuadraticExtension> = Vec::with_capacity(n);
    let mut k: usize = 0;
    while k < n
        invariant
            k <= n,
            old(hw)@.squeezed + n < u64::MAX,
            hw@.absorbed == old(hw)@.absorbed,
            hw@.squeezed == old(hw)@.squeezed + k,
            out@.len() == k,
            qe_all_wf(out@),
            forall|t: int|
                0 <= t < k ==> #[trigger] out@[t]@ == challenge_at(
                    old(hw)@.absorbed,
                    old(hw)@.squeezed + t as nat,
                ),
        decreases n - k,
    {
        let mut f = QuadraticExtension::zero();
        hw.sample_field_element_into(&mut f);
        out.push(f);
        k = k + 1;
    }
    out
}

/// `1 - a`.
pub fn qe_one_minus(a: &QuadraticExtension) -> (r: QuadraticExtension)
    requires
        a.wf(),
    ensures
        r.wf(),
        r@ == psub((1, 0), a@),
{
    QuadraticExtension::one().sub(a)
}

/// `a * b`.
pub fn qe_mul(a: &QuadraticExtension, b: &QuadraticExtension) -> (r: QuadraticExtension)
    requires
        a.wf(),
        b.wf(),
    ensures
        r.wf(),
        r@ == pmul(a@, b@),
{
    a.mul(b)
}

/// The field scalar as a ring element, for term coefficients and public
/// weights.
pub fn embed_qe(v: &QuadraticExtension) -> (r: RingElement)
    requires
        v.wf(),
    ensures
        r.wf(),
        r@ == sconst(HALF_DEGREE as nat, v@),
{
    RingElement::from_quadratic_extension(v)
}

/// The weight pair `(1, w)` as an eq layer: `(1 + w) * (1 - a, a)`. Returns
/// the layer value `a = w / (1 + w)` and the scale `1 + w` to fold into the
/// term coefficient. Defined when `1 + w` is invertible, that is unless
/// `w = -1 mod q`.
pub fn weighted_layer(w: u64) -> (r: (QuadraticExtension, u64))
    requires
        has_inverse(fmod(1 + w)),
    ensures
        r.0.wf(),
        r.0@.1 == 0,
        r.1 == fmod(1 + w),
        fmod(r.0@.0 * r.1) == fmod(w as int),
{
    let wm = w % MOD_Q;
    let scale = add_mod(1, wm);
    proof {
        vstd::arithmetic::div_mod::lemma_add_mod_noop(1, w as int, q());
        vstd::arithmetic::div_mod::lemma_small_mod(1, q() as nat);
    }
    let inv = inv_mod(scale);
    let a0 = mul_mod(wm, inv);
    proof {
        // a0 * scale = w * inv * scale = w (mod q)
        vstd::arithmetic::div_mod::lemma_mul_mod_noop_left(wm * inv, scale as int, q());
        vstd::arithmetic::div_mod::lemma_mul_mod_noop_left(w as int, inv as int, q());
        vstd::arithmetic::mul::lemma_mul_is_associative(w as int, inv as int, scale as int);
        vstd::arithmetic::mul::lemma_mul_is_commutative(inv as int, scale as int);
        vstd::arithmetic::div_mod::lemma_mul_mod_noop_right(w as int, inv * scale, q());
        vstd::arithmetic::div_mod::lemma_mul_mod_noop_left(wm as int, inv as int, q());
        vstd::arithmetic::div_mod::lemma_mul_mod_noop_left(w * inv, scale as int, q());
        vstd::arithmetic::mul::lemma_mul_basics(w as int);
        assert(fmod(w * inv * scale) == fmod(w * (inv * scale)));
        assert(fmod(w * (inv * scale)) == fmod(w * fmod(inv * scale)));
        assert(fmod(a0 * scale) == fmod(w * inv * scale));
    }
    (QuadraticExtension { coeffs: [a0, 0] }, scale)
}

/// [`weighted_layer`] where `1 + w` is invertible modulo `q`; `None` where it
/// is not.
pub fn checked_weighted_layer(w: u64) -> (r: Option<(QuadraticExtension, u64)>)
    ensures
        r is Some <==> has_inverse(fmod(1 + w)),
        r matches Some(p) ==> p.0.wf() && p.0@.1 == 0 && p.1 == fmod(1 + w) && fmod(
            p.0@.0 * p.1,
        ) == fmod(w as int),
{
    let scale = add_mod(1, w % MOD_Q);
    proof {
        vstd::arithmetic::div_mod::lemma_add_mod_noop(1, w as int, q());
        vstd::arithmetic::div_mod::lemma_small_mod(1, q() as nat);
        vstd::arithmetic::div_mod::lemma_small_mod(scale as nat, q() as nat);
    }
    match checked_inv_mod(scale) {
        Some(_) => Some(weighted_layer(w)),
        None => None,
    }
}

/// Entry `index` of the eq-tensor with the given layers, most-significant
/// layer first (equivalently `eq(layers, bits(index))`).
pub fn tensor_at(layers_msb: &[QuadraticExtension], index: usize) -> (r: QuadraticExtension)
    requires
        qe_all_wf(layers_msb@),
    ensures
        r.wf(),
        r@ == tensor_val(qe_seq(layers_msb@), index as int),
{
    let n = layers_msb.len();
    let ghost full = qe_seq(layers_msb@);
    let mut r = QuadraticExtension::one();
    let mut idx = index;
    let mut k = n;
    proof {
        lemma_tensor_val_reduced(full, index as int);
        assert(full.take(n as int) =~= full);
        lemma_one_identity(tensor_val(full, index as int));
    }
    while k > 0
        invariant
            k <= n,
            n == layers_msb@.len(),
            full == qe_seq(layers_msb@),
            qe_all_wf(layers_msb@),
            r.wf(),
            tensor_val(full, index as int) == pmul(tensor_val(full.take(k as int), idx as int), r@),
        decreases k,
    {
        let a = &layers_msb[k - 1];
        let bit = idx % 2;
        let f = if bit == 1 {
            proof {
                lemma_fmod_pair_fixed(a@);
            }
            *a
        } else {
            QuadraticExtension::one().sub(a)
        };
        proof {
            let pre = full.take(k as int);
            assert(pre.drop_last() =~= full.take(k - 1));
            assert(pre.last() == a@);
            assert(f@ == layer_factor(a@, (idx % 2) as int));
            lemma_tensor_val_reduced(full.take(k - 1), (idx / 2) as int);
            lemma_pmul_laws(tensor_val(full.take(k - 1), (idx / 2) as int), f@, r@);
        }
        r = f.mul(&r);
        idx = idx / 2;
        k = k - 1;
    }
    proof {
        assert(full.take(0) =~= Seq::<(int, int)>::empty());
        lemma_one_identity(r@);
    }
    r
}

/// `eq(a, z)` over matching coordinates, most-significant first.
pub fn eq_layers_qe(a: &[QuadraticExtension], z: &[QuadraticExtension]) -> (r: QuadraticExtension)
    requires
        qe_all_wf(a@),
        qe_all_wf(z@),
    ensures
        r.wf(),
        r@ == eq_val(
            qe_seq(a@),
            qe_seq(z@),
            if a@.len() <= z@.len() {
                a@.len()
            } else {
                z@.len()
            },
        ),
{
    let n = if a.len() <= z.len() {
        a.len()
    } else {
        z.len()
    };
    let mut r = QuadraticExtension::one();
    let mut j: usize = 0;
    while j < n
        invariant
            j <= n,
            n <= a@.len(),
            n <= z@.len(),
            qe_all_wf(a@),
            qe_all_wf(z@),
            r.wf(),
            r@ == eq_val(qe_seq(a@), qe_seq(z@), j as nat),
        decreases n - j,
    {
        let x = &a[j];
        let y = &z[j];
        let one = QuadraticExtension::one();
        let t = x.mul(y).add(&one.sub(x).mul(&one.sub(y)));
        r = r.mul(&t);
        j = j + 1;
    }
    r
}

/// The full eq-tensor with the given layers, most-significant first, each
/// entry embedded in the ring.
pub fn expand_field_tensor(layers: &[QuadraticExtension]) -> (r: Vec<RingElement>)
    requires
        qe_all_wf(layers@),
        pow2(layers@.len() as nat) <= usize::MAX,
    ensures
        r@.len() == pow2(layers@.len() as nat),
        forall|i: int|
            0 <= i < r@.len() ==> (#[trigger] r@[i]).wf() && r@[i]@ == sconst(
                HALF_DEGREE as nat,
                tensor_val(qe_seq(layers@), i),
            ),
{
    let n = layers.len();
    let ghost full = qe_seq(layers@);
    let mut vals: Vec<QuadraticExtension> = Vec::new();
    vals.push(QuadraticExtension::one());
    let mut k: usize = 0;
    proof {
        lemma2_to64();
        assert(full.subrange(n as int, n as int) =~= Seq::<(int, int)>::empty());
    }
    while k < n
        invariant
            k <= n,
            n == layers@.len(),
            full == qe_seq(layers@),
            qe_all_wf(layers@),
            pow2(n as nat) <= usize::MAX,
            vals@.len() == pow2(k as nat),
            forall|i: int|
                0 <= i < vals@.len() ==> (#[trigger] vals@[i]).wf() && vals@[i]@ == tensor_val(
                    full.subrange(n - k, n as int),
                    i,
                ),
        decreases n - k,
    {
        let a = &layers[n - 1 - k];
        let one_minus = QuadraticExtension::one().sub(a);
        let len = vals.len();
        let ghost s = full.subrange(n - k, n as int);
        proof {
            lemma_pow2_unfold((k + 1) as nat);
            if k + 1 < n {
                lemma_pow2_strictly_increases((k + 1) as nat, n as nat);
            }
            assert(full.subrange(n - (k + 1), n as int) =~= seq![a@] + s);
        }
        let mut next: Vec<QuadraticExtension> = Vec::with_capacity(2 * len);
        let mut i: usize = 0;
        while i < len
            invariant
                i <= len,
                len == vals@.len(),
                len == pow2(k as nat),
                next@.len() == i,
                one_minus.wf(),
                one_minus@ == psub((1, 0), a@),
                a.wf(),
                s.len() == k,
                forall|t: int|
                    0 <= t < vals@.len() ==> (#[trigger] vals@[t]).wf() && vals@[t]@ == tensor_val(
                        s,
                        t,
                    ),
                forall|t: int|
                    0 <= t < i ==> (#[trigger] next@[t]).wf() && next@[t]@ == tensor_val(
                        seq![a@] + s,
                        t,
                    ),
            decreases len - i,
        {
            proof {
                lemma_tensor_pow2_split(s, a@, i as int);
                lemma_pmul_laws(one_minus@, vals@[i as int]@, (0, 0));
            }
            next.push(vals[i].mul(&one_minus));
            i = i + 1;
        }
        let mut i: usize = 0;
        while i < len
            invariant
                i <= len,
                len == vals@.len(),
                len == pow2(k as nat),
                next@.len() == len + i,
                a.wf(),
                s.len() == k,
                forall|t: int|
                    0 <= t < vals@.len() ==> (#[trigger] vals@[t]).wf() && vals@[t]@ == tensor_val(
                        s,
                        t,
                    ),
                forall|t: int|
                    0 <= t < len + i ==> (#[trigger] next@[t]).wf() && next@[t]@ == tensor_val(
                        seq![a@] + s,
                        t,
                    ),
            decreases len - i,
        {
            proof {
                lemma_tensor_pow2_split(s, a@, i as int);
                lemma_fmod_pair_fixed(a@);
                lemma_pmul_laws(a@, vals@[i as int]@, (0, 0));
            }
            next.push(vals[i].mul(a));
            i = i + 1;
        }
        vals = next;
        k = k + 1;
    }
    proof {
        assert(full.subrange(0, n as int) =~= full);
    }
    let mut out: Vec<RingElement> = Vec::with_capacity(vals.len());
    let mut i: usize = 0;
    while i < vals.len()
        invariant
            i <= vals@.len(),
            out@.len() == i,
            vals@.len() == pow2(n as nat),
            full == qe_seq(layers@),
            forall|t: int|
                0 <= t < vals@.len() ==> (#[trigger] vals@[t]).wf() && vals@[t]@ == tensor_val(
                    full,
                    t,
                ),
            forall|t: int|
                0 <= t < i ==> (#[trigger] out@[t]).wf() && out@[t]@ == sconst(
                    HALF_DEGREE as nat,
                    tensor_val(full, t),
                ),
        decreases vals@.len() - i,
    {
        out.push(RingElement::from_quadratic_extension(&vals[i]));
        i = i + 1;
    }
    out
}


/// One factor of a claim term: an oracle evaluated at the common cube point.
pub enum ClaimFactor {
    /// The full committed vector.
    Witness,
    /// The conjugated committed vector (`X -> X^{-1}` per entry).
    ConjWitness,
    /// The committed vector restricted to the block under a binary prefix.
    WitnessSegment(Prefix),
    /// The conjugate of a witness segment.
    ConjWitnessSegment(Prefix),
    /// A public weight.
    Public(PublicFactor),
}

/// A claim expression: public and witness leaves closed under product, sum,
/// difference and scaling by a ring scalar.
pub enum ClaimExpr {
    /// A single oracle or public-weight leaf.
    Factor(ClaimFactor),
    /// A ring scalar, constant over the cube.
    Constant(RingElement),
    /// Pointwise product of the two sub-expressions.
    Product(Box<ClaimExpr>, Box<ClaimExpr>),
    /// Sum of the two sub-expressions.
    Sum(Box<ClaimExpr>, Box<ClaimExpr>),
    /// Difference `lhs - rhs`.
    Diff(Box<ClaimExpr>, Box<ClaimExpr>),
    /// A sub-expression scaled by a ring scalar.
    Scale(RingElement, Box<ClaimExpr>),
}

impl ClaimExpr {
    /// The full committed vector.
    pub fn witness() -> (r: ClaimExpr)
        ensures
            r == ClaimExpr::Factor(ClaimFactor::Witness),
    {
        ClaimExpr::Factor(ClaimFactor::Witness)
    }

    /// The conjugated committed vector.
    pub fn conj_witness() -> (r: ClaimExpr)
        ensures
            r == ClaimExpr::Factor(ClaimFactor::ConjWitness),
    {
        ClaimExpr::Factor(ClaimFactor::ConjWitness)
    }

    /// The witness block under `prefix`.
    pub fn segment(prefix: Prefix) -> (r: ClaimExpr)
        ensures
            r == ClaimExpr::Factor(ClaimFactor::WitnessSegment(prefix)),
    {
        ClaimExpr::Factor(ClaimFactor::WitnessSegment(prefix))
    }

    /// The conjugated witness block under `prefix`.
    pub fn conj_segment(prefix: Prefix) -> (r: ClaimExpr)
        ensures
            r == ClaimExpr::Factor(ClaimFactor::ConjWitnessSegment(prefix)),
    {
        ClaimExpr::Factor(ClaimFactor::ConjWitnessSegment(prefix))
    }

    /// A public weight leaf.
    pub fn public(factor: PublicFactor) -> (r: ClaimExpr)
        ensures
            r == ClaimExpr::Factor(ClaimFactor::Public(factor)),
    {
        ClaimExpr::Factor(ClaimFactor::Public(factor))
    }

    /// A ring constant.
    pub fn constant(value: RingElement) -> (r: ClaimExpr)
        ensures
            r == ClaimExpr::Constant(value),
    {
        ClaimExpr::Constant(value)
    }

    /// The pointwise product `self * rhs`.
    pub fn mul(self, rhs: ClaimExpr) -> (r: ClaimExpr)
        ensures
            r == ClaimExpr::Product(Box::new(self), Box::new(rhs)),
    {
        ClaimExpr::Product(Box::new(self), Box::new(rhs))
    }

    /// The sum `self + rhs`.
    pub fn add(self, rhs: ClaimExpr) -> (r: ClaimExpr)
        ensures
            r == ClaimExpr::Sum(Box::new(self), Box::new(rhs)),
    {
        ClaimExpr::Sum(Box::new(self), Box::new(rhs))
    }

    /// The difference `self - rhs`.
    pub fn sub(self, rhs: ClaimExpr) -> (r: ClaimExpr)
        ensures
            r == ClaimExpr::Diff(Box::new(self), Box::new(rhs)),
    {
        ClaimExpr::Diff(Box::new(self), Box::new(rhs))
    }

    /// `self` scaled by the ring scalar `scale`.
    pub fn scale(self, scale: &RingElement) -> (r: ClaimExpr)
        requires
            scale.wf(),
        ensures
            r matches ClaimExpr::Scale(c, x) && c.wf() && c@ == scale@ && *x == self,
    {
        ClaimExpr::Scale(scale.duplicate(), Box::new(self))
    }

    /// `-self`, as the scale by `q - 1`.
    pub fn neg(self) -> (r: ClaimExpr)
        ensures
            r matches ClaimExpr::Scale(c, x) && c.wf() && c@ == sconst(
                HALF_DEGREE as nat,
                pconst(MOD_Q - 1),
            ) && *x == self,
    {
        let c = RingElement::constant(MOD_Q - 1, Representation::IncompleteNTT);
        self.scale(&c)
    }
}

/// One claim: `sum_z expr(z) = value`.
pub struct SnarkClaim {
    pub expr: ClaimExpr,
    pub value: RingElement,
}

impl SnarkClaim {
    /// The claimed sum.
    pub fn value(&self) -> (r: &RingElement)
        ensures
            *r == self.value,
    {
        &self.value
    }
}

/// The proof of the initial claims: the round polynomials, and the two
/// witness evaluations the chain continues from.
pub struct InitialSumcheckProof {
    pub polys: Vec<Polynomial<QuadraticExtension>>,
    /// The evaluation of the committed vector at the final point.
    pub witness_eval: RingElement,
    /// The evaluation of the conjugated vector at the final point.
    pub conj_witness_eval: RingElement,
}

/// The initial statement of the commitment chain: evaluation rows and their
/// claims.
pub struct ChainInputs {
    pub evaluation_points_inner: Vec<StructuredRow>,
    pub evaluation_points_outer: Vec<StructuredRow>,
    pub claims: Vec<RingElement>,
}

/// Height and width of the committed witness matrix, as the verifier knows it.
#[derive(Clone, Copy, Debug, PartialEq, Eq)]
pub struct WitnessShape {
    pub height: usize,
    pub width: usize,
}

impl WitnessShape {
    pub fn new(height: usize, width: usize) -> (r: WitnessShape)
        ensures
            r.height == height,
            r.width == width,
    {
        WitnessShape { height, width }
    }
}


/// Each entry of the expanded field tensor is the tensor entry at its index,
/// embedded in the ring: `expand_field_tensor(layers)[i]` is
/// `embed_qe(tensor_at(layers, i))`.
pub proof fn lemma_expansion_matches_tensor_at(
    layers: Seq<QuadraticExtension>,
    expanded: Seq<RingElement>,
    entry: QuadraticExtension,
    index: int,
)
    requires
        expanded.len() == pow2(layers.len() as nat),
        forall|i: int|
            0 <= i < expanded.len() ==> (#[trigger] expanded[i]).wf() && expanded[i]@ == sconst(
                HALF_DEGREE as nat,
                tensor_val(qe_seq(layers), i),
            ),
        entry@ == tensor_val(qe_seq(layers), index),
        0 <= index < expanded.len(),
    ensures
        expanded[index]@ == sconst(HALF_DEGREE as nat, entry@),
{
}

} // verus!
