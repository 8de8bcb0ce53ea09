//! Rows of public keys and evaluation points: a tensor row kept as its layers,
//! and a row expanded entry by entry.
use vstd::prelude::*;
use vstd::arithmetic::div_mod::*;
use vstd::arithmetic::power2::*;
use crate::common::algebra::{lemma_sconst_wf, lemma_seq_laws, lemma_sops_wf, sadd, sconst, smul, ssub, swf};
use crate::common::config::HALF_DEGREE;
use crate::common::matrix::{vec_view, vec_wf};
use crate::common::ring_arithmetic::{Representation, RingElement};

verus! {

/// A row given by its eq-tensor layers, most-significant first.
pub struct StructuredRow {
    pub tensor_layers: Vec<RingElement>,
}

/// A row held entry by entry.
pub struct PreprocessedRow {
    pub preprocessed_row: Vec<RingElement>,
}

/// The zero ring element.
pub open spec fn rzero() -> Seq<(int, int)> {
    sconst(HALF_DEGREE as nat, (0, 0))
}

/// The unit ring element.
pub open spec fn rone() -> Seq<(int, int)> {
    sconst(HALF_DEGREE as nat, (1, 0))
}

/// The ring eq-tensor entry: the product of `a_j` or `1 - a_j` over the bits
/// of `index`, the last layer reading the lowest bit.
pub open spec fn rtensor_val(layers: Seq<Seq<(int, int)>>, index: int) -> Seq<(int, int)>
    decreases layers.len(),
{
    if layers.len() == 0 {
        rone()
    } else {
        smul(
            rtensor_val(layers.drop_last(), index / 2),
            if index % 2 == 1 {
                layers.last()
            } else {
                ssub(rone(), layers.last())
            },
        )
    }
}

/// A canonical ring element: `HALF_DEGREE` canonical slots.
pub open spec fn rwf(x: Seq<(int, int)>) -> bool {
    x.len() == HALF_DEGREE && swf(x)
}

/// Zero and one are canonical.
pub proof fn lemma_consts_wf()
    ensures
        rwf(rzero()),
        rwf(rone()),
{
    lemma_sconst_wf(HALF_DEGREE as nat, (0, 0));
    lemma_sconst_wf(HALF_DEGREE as nat, (1, 0));
}

/// The slot-wise operations keep ring elements canonical.
pub proof fn lemma_rops_wf(a: Seq<(int, int)>, b: Seq<(int, int)>)
    requires
        rwf(a),
    ensures
        rwf(sadd(a, b)),
        rwf(ssub(a, b)),
        rwf(smul(a, b)),
{
    lemma_sops_wf(a, b);
}

/// Ring tensor entries are canonical.
pub proof fn lemma_rtensor_wf(layers: Seq<Seq<(int, int)>>, index: int)
    requires
        forall|j: int| 0 <= j < layers.len() ==> #[trigger] rwf(layers[j]),
    ensures
        rwf(rtensor_val(layers, index)),
    decreases layers.len(),
{
    lemma_consts_wf();
    if layers.len() > 0 {
        lemma_rtensor_wf(layers.drop_last(), index / 2);
        let f = if index % 2 == 1 {
            layers.last()
        } else {
            ssub(rone(), layers.last())
        };
        lemma_rops_wf(rone(), layers.last());
        lemma_rops_wf(rtensor_val(layers.drop_last(), index / 2), f);
    }
}


/// The factor a ring tensor layer contributes at an index bit.
pub open spec fn rlayer_factor(a: Seq<(int, int)>, bit: int) -> Seq<(int, int)> {
    if bit == 1 {
        a
    } else {
        ssub(rone(), a)
    }
}

proof fn lemma_rone_identity(x: Seq<(int, int)>)
    requires
        rwf(x),
    ensures
        smul(x, rone()) == x,
        smul(rone(), x) == x,
{
    lemma_consts_wf();
    lemma_seq_laws(x, rone(), rone());
}

/// Prepending a most-significant layer `a` to `s`: the new top bit selects the
/// factor of `a`, the remaining bits address `s`.
pub proof fn lemma_rtensor_prepend(a: Seq<(int, int)>, s: Seq<Seq<(int, int)>>, i: int)
    requires
        0 <= i,
        rwf(a),
        forall|j: int| 0 <= j < s.len() ==> #[trigger] rwf(s[j]),
    ensures
        rtensor_val(seq![a] + s, i) == smul(
            rlayer_factor(a, (i / (pow2(s.len()) as int)) % 2),
            rtensor_val(s, i % (pow2(s.len()) as int)),
        ),
    decreases s.len(),
{
    let k = s.len();
    let t = seq![a] + s;
    lemma_pow2_pos(k);
    lemma_consts_wf();
    lemma_rops_wf(rone(), a);
    if k == 0 {
        lemma2_to64();
        assert(t.drop_last() =~= Seq::<Seq<(int, int)>>::empty());
        assert(t.last() == a);
        assert(i / 1 == i);
        assert(i % 1 == 0);
        assert(rtensor_val(t.drop_last(), i / 2) == rone());
        lemma_rone_identity(rlayer_factor(a, i % 2));
    } else {
        let s2 = s.drop_last();
        assert(t.drop_last() =~= seq![a] + s2);
        assert(t.last() == s.last());
        assert(forall|j: int| 0 <= j < s2.len() ==> #[trigger] rwf(s2[j]) == rwf(s[j]));
        lemma_rtensor_prepend(a, s2, i / 2);
        let p = pow2((k - 1) as nat) as int;
        lemma_pow2_unfold(k);
        lemma_pow2_pos((k - 1) as nat);
        lemma_div_denominator(i, 2, p);
        lemma_mod_mod(i, 2, p);
        lemma_mod_breakdown(i, 2, p);
        lemma_mod_bound(i, 2);
        lemma_fundamental_div_mod_converse(i % (2 * p), 2, (i / 2) % p, i % 2);
        let fa = rlayer_factor(a, (i / (pow2(k) as int)) % 2);
        let ts2 = rtensor_val(s2, (i % (pow2(k) as int)) / 2);
        let fl = rlayer_factor(s.last(), i % 2);
        assert(rwf(s.last()));
        lemma_rops_wf(rone(), s.last());
        lemma_rtensor_wf(s2, (i % (pow2(k) as int)) / 2);
        lemma_seq_laws(fa, ts2, fl);
        assert(rtensor_val(t, i) == smul(rtensor_val(seq![a] + s2, i / 2), fl));
        assert(rtensor_val(s, i % (pow2(k) as int)) == smul(ts2, fl));
    }
}

impl PreprocessedRow {
    /// The row expanded from its eq-tensor layers: entry `i` is the product of
    /// `a_j` or `1 - a_j` over the bits of `i`, most-significant layer first.
    pub fn from_structured_row(row: &StructuredRow) -> (r: PreprocessedRow)
        requires
            vec_wf(row.tensor_layers@),
            pow2(row.tensor_layers@.len() as nat) <= usize::MAX,
        ensures
            r.preprocessed_row@.len() == pow2(row.tensor_layers@.len() as nat),
            vec_wf(r.preprocessed_row@),
            forall|i: int|
                0 <= i < r.preprocessed_row@.len() ==> #[trigger] r.preprocessed_row@[i]@
                    == rtensor_val(vec_view(row.tensor_layers@), i),
    {
        let layers = &row.tensor_layers;
        let n = layers.len();
        let ghost full = vec_view(layers@);
        let mut vals: Vec<RingElement> = Vec::new();
        vals.push(RingElement::constant(1, Representation::IncompleteNTT));
        let mut k: usize = 0;
        proof {
            lemma2_to64();
            lemma_small_mod(1, crate::common::field::q() as nat);
            assert(full.subrange(n as int, n as int) =~= Seq::<Seq<(int, int)>>::empty());
            assert forall|j: int| 0 <= j < full.len() implies #[trigger] rwf(full[j]) by {
                assert(layers@[j].wf());
            }
        }
        while k < n
            invariant
                k <= n,
                n == layers@.len(),
                full == vec_view(layers@),
                vec_wf(layers@),
                forall|j: int| 0 <= j < full.len() ==> #[trigger] rwf(full[j]),
                pow2(n as nat) <= usize::MAX,
                vals@.len() == pow2(k as nat),
                vec_wf(vals@),
                forall|i: int|
                    0 <= i < vals@.len() ==> #[trigger] vals@[i]@ == rtensor_val(
                        full.subrange(n - k, n as int),
                        i,
                    ),
            decreases n - k,
        {
            let a = &layers[n - 1 - k];
            let one_minus = RingElement::constant(1, Representation::IncompleteNTT).sub(a);
            let len = vals.len();
            let ghost s = full.subrange(n - k, n as int);
            proof {
                lemma_small_mod(1, crate::common::field::q() as nat);
                lemma_pow2_unfold((k + 1) as nat);
                if k + 1 < n {
                    lemma_pow2_strictly_increases((k + 1) as nat, n as nat);
                }
                assert(full.subrange(n - (k + 1), n as int) =~= seq![a@] + s);
                assert(forall|j: int| 0 <= j < s.len() ==> #[trigger] rwf(s[j]) == rwf(full[n - k + j]));
                assert(rwf(full[n - 1 - k]));
            }
            let mut next: Vec<RingElement> = Vec::with_capacity(2 * len);
            let mut half: usize = 0;
            while half < 2
                invariant
                    half <= 2,
                    len == vals@.len(),
                    len == pow2(k as nat),
                    next@.len() == half * len,
                    vec_wf(vals@),
                    vec_wf(next@),
                    one_minus.wf(),
                    one_minus@ == ssub(rone(), a@),
                    a.wf(),
                    s.len() == k,
                    forall|j: int| 0 <= j < s.len() ==> #[trigger] rwf(s[j]),
                    forall|t: int|
                        0 <= t < vals@.len() ==> #[trigger] vals@[t]@ == rtensor_val(s, t),
                    forall|t: int|
                        0 <= t < next@.len() ==> #[trigger] next@[t]@ == rtensor_val(
                            seq![a@] + s,
                            t,
                        ),
                decreases 2 - half,
            {
                let mut i: usize = 0;
                while i < len
                    invariant
                        i <= len,
                        half < 2,
                        len == vals@.len(),
                        len == pow2(k as nat),
                        next@.len() == half * len + i,
                        vec_wf(vals@),
                        vec_wf(next@),
                        one_minus.wf(),
                        one_minus@ == ssub(rone(), a@),
                        a.wf(),
                        s.len() == k,
                        forall|j: int| 0 <= j < s.len() ==> #[trigger] rwf(s[j]),
                        forall|t: int|
                            0 <= t < vals@.len() ==> #[trigger] vals@[t]@ == rtensor_val(s, t),
                        forall|t: int|
                            0 <= t < next@.len() ==> #[trigger] next@[t]@ == rtensor_val(
                                seq![a@] + s,
                                t,
                            ),
                    decreases len - i,
                {
                    let f = if half == 0 {
                        &one_minus
                    } else {
                        a
                    };
                    proof {
                        let t = half * len + i;
                        lemma_rtensor_prepend(a@, s, t as int);
                        assert(t / (len as int) == half as int) by {
                            lemma_fundamental_div_mod_converse(t as int, len as int, half as int, i as int);
                        }
                        assert(t % (len as int) == i as int) by {
                            lemma_fundamental_div_mod_converse(t as int, len as int, half as int, i as int);
                        }
                        assert(rwf(vals@[i as int]@));
                        lemma_seq_laws(f@, vals@[i as int]@, vals@[i as int]@);
                    }
                    next.push(vals[i].mul(f));
                    i = i + 1;
                }
                assert(next@.len() == (half + 1) * len) by (nonlinear_arith)
                    requires
                        next@.len() == half * len + len,
                ;
                half = half + 1;
            }
            vals = next;
            k = k + 1;
        }
        proof {
            assert(full.subrange(0, n as int) =~= full);
        }
        PreprocessedRow { preprocessed_row: vals }
    }
}

} // verus!
