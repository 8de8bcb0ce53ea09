//! The common reference string with structured keys: every key row is an
//! eq-tensor, kept as its layers and, on the prover's side, expanded.
use vstd::prelude::*;
use vstd::arithmetic::power2::{lemma_pow2_strictly_increases, pow2};
use crate::common::bits::{ilog2, is_pow2, lemma_pow2_log2, log2};
use crate::common::config::HALF_DEGREE;
use crate::common::matrix::{vec_view, vec_wf};
use crate::common::ring_arithmetic::RingElement;
use crate::common::sampling::{
    blake3_xof_spec, element_at, lemma_element_at_local, sample_public_vector_from_seed, ELEMENT_BYTES,
};
use crate::common::structured_row::{rtensor_val, PreprocessedRow, StructuredRow};

verus! {

/// Expanded key rows of one length.
pub type CK = Vec<PreprocessedRow>;

/// Structured key rows of one length.
pub type SCK = Vec<StructuredRow>;

/// Keys for every dyadic witness length up to the largest.
pub struct CRS {
    /// Expanded keys, index `log2(length) - 1`.
    pub cks: Vec<CK>,
    /// Structured keys, index `log2(length) - 1`.
    pub structured_cks: Vec<SCK>,
}

/// Only the structured keys; the expanded rows are prover-side work.
pub struct VerifierCRS {
    pub structured_cks: Vec<SCK>,
}

/// The key index of witnesses of length `wit_dim`.
pub open spec fn key_index(wit_dim: nat) -> int {
    log2(wit_dim) - 1
}

fn key_index_of(wit_dim: usize) -> (r: usize)
    requires
        wit_dim >= 2,
    ensures
        r == key_index(wit_dim as nat),
{
    proof {
        if log2(wit_dim as nat) == 0 {
            assert(log2(wit_dim as nat) == 1 + log2((wit_dim / 2) as nat));
        }
    }
    ilog2(wit_dim) - 1
}

impl VerifierCRS {
    /// The structured key for witnesses of length `wit_dim`.
    pub fn structured_ck_for_wit_dim(&self, wit_dim: usize) -> (r: &Vec<StructuredRow>)
        requires
            wit_dim >= 2,
            key_index(wit_dim as nat) < self.structured_cks@.len(),
        ensures
            *r == self.structured_cks@[key_index(wit_dim as nat)],
    {
        &self.structured_cks[key_index_of(wit_dim)]
    }
}

impl CRS {
    /// The expanded key for witnesses of length `wit_dim`.
    pub fn ck_for_wit_dim(&self, wit_dim: usize) -> (r: &Vec<PreprocessedRow>)
        requires
            wit_dim >= 2,
            key_index(wit_dim as nat) < self.cks@.len(),
        ensures
            *r == self.cks@[key_index(wit_dim as nat)],
    {
        &self.cks[key_index_of(wit_dim)]
    }

    /// The structured key for witnesses of length `wit_dim`.
    pub fn structured_ck_for_wit_dim(&self, wit_dim: usize) -> (r: &Vec<StructuredRow>)
        requires
            wit_dim >= 2,
            key_index(wit_dim as nat) < self.structured_cks@.len(),
        ensures
            *r == self.structured_cks@[key_index(wit_dim as nat)],
    {
        &self.structured_cks[key_index_of(wit_dim)]
    }
}

/// The public seed of the shared layer matrix.
pub open spec fn layer_seed() -> Seq<u8> {
    seq![0x73u8, 0x63u8, 0x6bu8]
}

/// Entry `k` of the shared layer matrix of `count` entries.
pub open spec fn shared_layer(count: nat, k: int) -> Seq<(int, int)> {
    element_at(blake3_xof_spec(layer_seed(), (count * ELEMENT_BYTES) as nat), k * ELEMENT_BYTES)
}

/// An entry of the shared layer matrix is the same in every matrix that holds
/// it: the matrix is read off one stream, a shorter read being a prefix of a
/// longer one.
pub proof fn lemma_shared_layer_prefix(c1: nat, c2: nat, k: int)
    requires
        0 <= k < c1 <= c2,
    ensures
        shared_layer(c1, k) == shared_layer(c2, k),
{
    let a = blake3_xof_spec(layer_seed(), (c1 * ELEMENT_BYTES) as nat);
    let b = blake3_xof_spec(layer_seed(), (c2 * ELEMENT_BYTES) as nat);
    assert((k + 1) * ELEMENT_BYTES <= c1 * ELEMENT_BYTES) by (nonlinear_arith)
        requires
            k + 1 <= c1,
    ;
    assert(c1 * ELEMENT_BYTES <= c2 * ELEMENT_BYTES) by (nonlinear_arith)
        requires
            c1 <= c2,
    ;
    assert forall|t: int|
        k * ELEMENT_BYTES <= t < k * ELEMENT_BYTES + 16 * HALF_DEGREE implies #[trigger] a[t]
        == b[t] by {}
    lemma_element_at_local(a, b, k * ELEMENT_BYTES);
}

/// Row `j` of a structured key is the same however many rows the key has:
/// with the same number of bits and variables, its layers and its expansion
/// agree between any two keys that both hold row `j`.
pub proof fn lemma_structured_rows_agree(
    r1: StructuredRow,
    r2: StructuredRow,
    p1: PreprocessedRow,
    p2: PreprocessedRow,
    bits: nat,
    rows1: nat,
    rows2: nat,
    i: nat,
    j: nat,
)
    requires
        is_structured_row(r1, bits, rows1, i, j),
        is_structured_row(r2, bits, rows2, i, j),
        is_expansion(p1, r1),
        is_expansion(p2, r2),
        i <= bits,
        j < rows1 <= rows2,
    ensures
        vec_view(r1.tensor_layers@) == vec_view(r2.tensor_layers@),
        vec_view(p1.preprocessed_row@) == vec_view(p2.preprocessed_row@),
{
    assert forall|t: int| 0 <= t < i implies #[trigger] r1.tensor_layers@[t]@
        == r2.tensor_layers@[t]@ by {
        let k = j * bits + (bits - i) + t;
        assert(k < bits * rows1) by (nonlinear_arith)
            requires
                k == j * bits + (bits - i) + t,
                t < i,
                i <= bits,
                j + 1 <= rows1,
        ;
        assert(bits * rows1 <= bits * rows2) by (nonlinear_arith)
            requires
                rows1 <= rows2,
        ;
        lemma_shared_layer_prefix(bits * rows1, bits * rows2, k);
    }
    assert(vec_view(r1.tensor_layers@) =~= vec_view(r2.tensor_layers@));
    assert(vec_view(p1.preprocessed_row@) =~= vec_view(p2.preprocessed_row@));
}

/// The layers of row `j` of the structured key of `i` variables: the last `i`
/// entries of row `j` of the shared `rows x bits` layer matrix.
pub open spec fn is_structured_row(r: StructuredRow, bits: nat, rows: nat, i: nat, j: nat) -> bool {
    &&& r.tensor_layers@.len() == i
    &&& vec_wf(r.tensor_layers@)
    &&& forall|t: int|
        0 <= t < i ==> #[trigger] r.tensor_layers@[t]@ == shared_layer(
            bits * rows,
            j * bits + (bits - i) + t,
        )
}

fn gen_structured_cks(max_wit_dim: usize, max_module_size: usize) -> (r: Vec<SCK>)
    requires
        max_wit_dim >= 2,
        is_pow2(max_wit_dim as nat),
        log2(max_wit_dim as nat) * max_module_size * ELEMENT_BYTES <= usize::MAX,
    ensures
        r@.len() == log2(max_wit_dim as nat),
        forall|i: int|
            0 <= i < r@.len() ==> (#[trigger] r@[i])@.len() == max_module_size,
        forall|i: int, j: int|
            0 <= i < r@.len() && 0 <= j < max_module_size ==> #[trigger] is_structured_row(
                r@[i]@[j],
                log2(max_wit_dim as nat),
                max_module_size as nat,
                (i + 1) as nat,
                j as nat,
            ),
{
    let bits = ilog2(max_wit_dim);
    let seed: Vec<u8> = vec![0x73u8, 0x63u8, 0x6bu8];
    proof {
        assert(seed@ =~= layer_seed());
        vstd::arithmetic::mul::lemma_mul_inequality(
            bits * max_module_size,
            bits * max_module_size * ELEMENT_BYTES,
            1,
        );
        assert(bits * max_module_size <= bits * max_module_size * ELEMENT_BYTES)
            by (nonlinear_arith);
    }
    let count = bits * max_module_size;
    let shared = sample_public_vector_from_seed(&seed, count);
    let mut out: Vec<SCK> = Vec::with_capacity(bits);
    let mut i: usize = 1;
    while i <= bits
        invariant
            1 <= i <= bits + 1,
            bits < 64,
            bits == log2(max_wit_dim as nat),
            count == bits * max_module_size,
            shared@.len() == count,
            forall|k: int|
                0 <= k < count ==> (#[trigger] shared@[k]).wf() && shared@[k]@ == shared_layer(
                    count as nat,
                    k,
                ),
            out@.len() == i - 1,
            forall|a: int| 0 <= a < out@.len() ==> (#[trigger] out@[a])@.len() == max_module_size,
            forall|a: int, j: int|
                0 <= a < out@.len() && 0 <= j < max_module_size ==> #[trigger] is_structured_row(
                    out@[a]@[j],
                    bits as nat,
                    max_module_size as nat,
                    (a + 1) as nat,
                    j as nat,
                ),
        decreases bits + 1 - i,
    {
        let mut rows: SCK = Vec::with_capacity(max_module_size);
        let mut j: usize = 0;
        while j < max_module_size
            invariant
                1 <= i <= bits,
                bits == log2(max_wit_dim as nat),
                count == bits * max_module_size,
                shared@.len() == count,
                forall|k: int|
                    0 <= k < count ==> (#[trigger] shared@[k]).wf() && shared@[k]@ == shared_layer(
                        count as nat,
                        k,
                    ),
                j <= max_module_size,
                rows@.len() == j,
                forall|b: int|
                    0 <= b < j ==> #[trigger] is_structured_row(
                        rows@[b],
                        bits as nat,
                        max_module_size as nat,
                        i as nat,
                        b as nat,
                    ),
            decreases max_module_size - j,
        {
            proof {
                assert(j * bits + bits <= count) by (nonlinear_arith)
                    requires
                        j < max_module_size,
                        count == bits * max_module_size,
                ;
            }
            let base = j * bits;
            let mut layers: Vec<RingElement> = Vec::with_capacity(i);
            let mut t: usize = 0;
            while t < i
                invariant
                    1 <= i <= bits,
                    base + bits <= count,
                    shared@.len() == count,
                    forall|k: int|
                        0 <= k < count ==> (#[trigger] shared@[k]).wf() && shared@[k]@
                            == shared_layer(count as nat, k),
                    t <= i,
                    layers@.len() == t,
                    vec_wf(layers@),
                    forall|u: int|
                        0 <= u < t ==> #[trigger] layers@[u]@ == shared_layer(
                            count as nat,
                            base + (bits - i) + u,
                        ),
                decreases i - t,
            {
                layers.push(shared[base + (bits - i) + t].duplicate());
                t = t + 1;
            }
            rows.push(StructuredRow { tensor_layers: layers });
            j = j + 1;
        }
        out.push(rows);
        i = i + 1;
    }
    out
}

/// The expanded form of a structured key.
fn expand_keys(structured: &Vec<SCK>) -> (r: Vec<CK>)
    requires
        forall|i: int, j: int|
            0 <= i < structured@.len() && 0 <= j < structured@[i]@.len() ==> #[trigger] vec_wf(
                structured@[i]@[j].tensor_layers@,
            ) && pow2(structured@[i]@[j].tensor_layers@.len() as nat) <= usize::MAX,
    ensures
        r@.len() == structured@.len(),
        forall|i: int| 0 <= i < r@.len() ==> (#[trigger] r@[i])@.len() == structured@[i]@.len(),
        forall|i: int, j: int|
            0 <= i < r@.len() && 0 <= j < r@[i]@.len() ==> #[trigger] is_expansion(
                r@[i]@[j],
                structured@[i]@[j],
            ),
{
    let mut out: Vec<CK> = Vec::with_capacity(structured.len());
    let mut i: usize = 0;
    while i < structured.len()
        invariant
            i <= structured@.len(),
            out@.len() == i,
            forall|a: int, j: int|
                0 <= a < structured@.len() && 0 <= j < structured@[a]@.len() ==> #[trigger] vec_wf(
                    structured@[a]@[j].tensor_layers@,
                ) && pow2(structured@[a]@[j].tensor_layers@.len() as nat) <= usize::MAX,
            forall|a: int| 0 <= a < i ==> (#[trigger] out@[a])@.len() == structured@[a]@.len(),
            forall|a: int, j: int|
                0 <= a < i && 0 <= j < out@[a]@.len() ==> #[trigger] is_expansion(
                    out@[a]@[j],
                    structured@[a]@[j],
                ),
        decreases structured@.len() - i,
    {
        let sck = &structured[i];
        let mut rows: CK = Vec::with_capacity(sck.len());
        let mut j: usize = 0;
        while j < sck.len()
            invariant
                i < structured@.len(),
                *sck == structured@[i as int],
                j <= sck@.len(),
                rows@.len() == j,
                forall|a: int, b: int|
                    0 <= a < structured@.len() && 0 <= b < structured@[a]@.len() ==> #[trigger] vec_wf(
                        structured@[a]@[b].tensor_layers@,
                    ) && pow2(structured@[a]@[b].tensor_layers@.len() as nat) <= usize::MAX,
                forall|b: int| 0 <= b < j ==> #[trigger] is_expansion(rows@[b], sck@[b]),
            decreases sck@.len() - j,
        {
            assert(vec_wf(structured@[i as int]@[j as int].tensor_layers@));
            let row = PreprocessedRow::from_structured_row(&sck[j]);
            rows.push(row);
            j = j + 1;
        }
        out.push(rows);
        i = i + 1;
    }
    out
}

/// `p` is the expansion of the structured row `s`, entry by entry.
pub open spec fn is_expansion(p: PreprocessedRow, s: StructuredRow) -> bool {
    &&& p.preprocessed_row@.len() == pow2(s.tensor_layers@.len() as nat)
    &&& vec_wf(p.preprocessed_row@)
    &&& forall|k: int|
        0 <= k < p.preprocessed_row@.len() ==> #[trigger] p.preprocessed_row@[k]@ == rtensor_val(
            vec_view(s.tensor_layers@),
            k,
        )
}

impl CRS {
    /// Keys for every witness length `2, 4, ..., max_wit_dim`, each with
    /// `max_module_size` rows; row `j` of the key of `2^i` entries is the
    /// eq-tensor of the last `i` entries of row `j` of a public layer matrix.
    pub fn gen_crs(max_wit_dim: usize, max_module_size: usize) -> (r: CRS)
        requires
            max_wit_dim >= 2,
            is_pow2(max_wit_dim as nat),
            log2(max_wit_dim as nat) * max_module_size * ELEMENT_BYTES <= usize::MAX,
        ensures
            r.structured_cks@.len() == log2(max_wit_dim as nat),
            r.cks@.len() == r.structured_cks@.len(),
            forall|i: int|
                0 <= i < r.cks@.len() ==> (#[trigger] r.structured_cks@[i])@.len()
                    == max_module_size && r.cks@[i]@.len() == max_module_size,
            forall|i: int, j: int|
                0 <= i < r.cks@.len() && 0 <= j < max_module_size ==> #[trigger] is_structured_row(
                    r.structured_cks@[i]@[j],
                    log2(max_wit_dim as nat),
                    max_module_size as nat,
                    (i + 1) as nat,
                    j as nat,
                ) && is_expansion(r.cks@[i]@[j], r.structured_cks@[i]@[j]),
    {
        let structured_cks = gen_structured_cks(max_wit_dim, max_module_size);
        proof {
            lemma_pow2_log2(max_wit_dim as nat);
            assert forall|i: int, j: int|
                0 <= i < structured_cks@.len() && 0 <= j < structured_cks@[i]@.len() implies #[trigger] vec_wf(
                    structured_cks@[i]@[j].tensor_layers@,
                ) && pow2(structured_cks@[i]@[j].tensor_layers@.len() as nat) <= usize::MAX by {
                assert(is_structured_row(
                    structured_cks@[i]@[j],
                    log2(max_wit_dim as nat),
                    max_module_size as nat,
                    (i + 1) as nat,
                    j as nat,
                ));
                if i + 1 < log2(max_wit_dim as nat) {
                    lemma_pow2_strictly_increases((i + 1) as nat, log2(max_wit_dim as nat));
                }
            }
        }
        let cks = expand_keys(&structured_cks);
        CRS { cks, structured_cks }
    }
}

} // verus!
