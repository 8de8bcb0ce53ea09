//! Eq-tensors over the quadratic extension: the value of a tensor entry, its
//! full expansion, and the agreement of the two.
use vstd::prelude::*;
use vstd::arithmetic::div_mod::*;
use vstd::arithmetic::power2::*;
use crate::common::algebra::{fmod_pair, lemma_pmul_laws, lemma_pops_reduced, padd, pmul, preduced, psub};
use crate::common::ring_arithmetic::QuadraticExtension;

verus! {

/// The values of a sequence of extension elements.
pub open spec fn qe_seq(s: Seq<QuadraticExtension>) -> Seq<(int, int)> {
    Seq::new(s.len(), |j: int| s[j]@)
}

/// Every element of the sequence is canonical.
pub open spec fn qe_all_wf(s: Seq<QuadraticExtension>) -> bool {
    forall|j: int| 0 <= j < s.len() ==> (#[trigger] s[j]).wf()
}

/// The factor a tensor layer `a` contributes at an index bit: `a` at one and
/// `1 - a` at zero.
pub open spec fn layer_factor(a: (int, int), bit: int) -> (int, int) {
    if bit == 1 {
        fmod_pair(a)
    } else {
        psub((1, 0), a)
    }
}

/// Entry `index` of the eq-tensor with layers `layers` (most-significant
/// layer first): the product of the layer factors at the bits of `index`, the
/// last layer reading the lowest bit.
pub open spec fn tensor_val(layers: Seq<(int, int)>, index: int) -> (int, int)
    decreases layers.len(),
{
    if layers.len() == 0 {
        (1, 0)
    } else {
        pmul(tensor_val(layers.drop_last(), index / 2), layer_factor(layers.last(), index % 2))
    }
}

/// `eq(a, z)` over the first `n` coordinates:
/// the product of `a_j z_j + (1 - a_j)(1 - z_j)`.
pub open spec fn eq_val(a: Seq<(int, int)>, z: Seq<(int, int)>, n: nat) -> (int, int)
    decreases n,
{
    if n == 0 {
        (1, 0)
    } else {
        pmul(
            eq_val(a, z, (n - 1) as nat),
            padd(
                pmul(a[n - 1], z[n - 1]),
                pmul(psub((1, 0), a[n - 1]), psub((1, 0), z[n - 1])),
            ),
        )
    }
}

pub proof fn lemma_layer_factor_reduced(a: (int, int), bit: int)
    ensures
        preduced(layer_factor(a, bit)),
{
    lemma_pops_reduced(a, a);
    lemma_pops_reduced((1, 0), a);
    vstd::arithmetic::div_mod::lemma_mod_bound(a.0, crate::common::field::q());
    vstd::arithmetic::div_mod::lemma_mod_bound(a.1, crate::common::field::q());
}

/// Tensor entries are canonical.
pub proof fn lemma_tensor_val_reduced(layers: Seq<(int, int)>, index: int)
    ensures
        preduced(tensor_val(layers, index)),
    decreases layers.len(),
{
    if layers.len() == 0 {
        assert(crate::common::field::reduced(1));
    } else {
        lemma_pops_reduced(
            tensor_val(layers.drop_last(), index / 2),
            layer_factor(layers.last(), index % 2),
        );
    }
}

pub proof fn lemma_one_identity(x: (int, int))
    requires
        preduced(x),
    ensures
        pmul(x, (1, 0)) == x,
        pmul((1, 0), x) == x,
{
    lemma_pmul_laws(x, (1, 0), (1, 0));
}

/// Index arithmetic behind prepending a layer.
proof fn lemma_split_index(i: int, p: int)
    requires
        p >= 1,
        0 <= i,
    ensures
        (i / 2) / p == i / (2 * p),
        (i / 2) % p == (i % (2 * p)) / 2,
        (i % (2 * p)) % 2 == i % 2,
{
    lemma_div_denominator(i, 2, p);
    lemma_mod_mod(i, 2, p);
    lemma_mod_breakdown(i, 2, p);
    let m = (i / 2) % p;
    let b = i % 2;
    lemma_mod_bound(i, 2);
    lemma_fundamental_div_mod_converse(i % (2 * p), 2, m, b);
}

/// Prepending a most-significant layer `a` to `s`: the new top bit selects the
/// factor of `a`, the remaining bits address `s`.
pub proof fn lemma_tensor_prepend(a: (int, int), s: Seq<(int, int)>, i: int)
    requires
        0 <= i,
    ensures
        tensor_val(seq![a] + s, i) == pmul(
            layer_factor(a, (i / (pow2(s.len()) as int)) % 2),
            tensor_val(s, i % (pow2(s.len()) as int)),
        ),
    decreases s.len(),
{
    let k = s.len();
    let t = seq![a] + s;
    lemma_pow2_pos(k);
    if k == 0 {
        lemma2_to64();
        assert(t.drop_last() =~= Seq::<(int, int)>::empty());
        assert(t.last() == a);
        lemma_layer_factor_reduced(a, i % 2);
        lemma_one_identity(layer_factor(a, i % 2));
        assert(i / 1 == i);
        assert(i % 1 == 0);
        assert(tensor_val(t.drop_last(), i / 2) == (1int, 0int));
        assert(tensor_val(t, i) == pmul((1, 0), layer_factor(a, i % 2)));
        assert(tensor_val(s, 0) == (1int, 0int));
    } else {
        let s2 = s.drop_last();
        assert(t.drop_last() =~= seq![a] + s2);
        assert(t.last() == s.last());
        lemma_tensor_prepend(a, s2, i / 2);
        let p = pow2((k - 1) as nat) as int;
        lemma_pow2_unfold(k);
        assert(pow2(k) == 2 * p);
        lemma_pow2_pos((k - 1) as nat);
        lemma_split_index(i, p);
        let fa = layer_factor(a, (i / (pow2(k) as int)) % 2);
        let ts2 = tensor_val(s2, (i % (pow2(k) as int)) / 2);
        let fl = layer_factor(s.last(), i % 2);
        lemma_layer_factor_reduced(a, (i / (pow2(k) as int)) % 2);
        lemma_pmul_laws(fa, ts2, fl);
        assert(tensor_val(t, i) == pmul(tensor_val(seq![a] + s2, i / 2), fl));
        assert(tensor_val(seq![a] + s2, i / 2) == pmul(fa, ts2));
        assert(tensor_val(s, i % (pow2(k) as int)) == pmul(ts2, fl));
    }
}

/// The agreement of entries with their neighbours along the lowest bit:
/// appending a layer doubles the table.
pub proof fn lemma_tensor_pow2_split(s: Seq<(int, int)>, a: (int, int), i: int)
    requires
        0 <= i < pow2(s.len()) as int,
    ensures
        tensor_val(seq![a] + s, i) == pmul(psub((1, 0), a), tensor_val(s, i)),
        tensor_val(seq![a] + s, i + pow2(s.len()) as int) == pmul(fmod_pair(a), tensor_val(s, i)),
{
    let p = pow2(s.len()) as int;
    lemma_pow2_pos(s.len());
    lemma_tensor_prepend(a, s, i);
    lemma_tensor_prepend(a, s, i + p);
    lemma_small_mod(i as nat, p as nat);
    assert(i / p == 0) by {
        lemma_basic_div(i, p);
    }
    assert((i + p) / p == 1) by {
        lemma_fundamental_div_mod_converse(i + p, p, 1, i);
    }
    assert((i + p) % p == i) by {
        lemma_fundamental_div_mod_converse(i + p, p, 1, i);
    }
}

} // verus!
