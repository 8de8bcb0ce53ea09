//! The common reference string: dense commitment keys, one per dyadic
//! witness length, expanded from a public seed.
use vstd::prelude::*;
use vstd::arithmetic::power2::pow2;
use crate::common::bits::{ilog2, is_pow2, lemma_pow2_log2, log2, pow2_usize};
use crate::common::matrix::{vec_view, vec_wf};
use crate::common::sampling::{
    blake3_xof_spec, element_at, le_bytes, push_le_bytes, sample_public_vector_from_seed,
    ELEMENT_BYTES,
};
use crate::common::structured_row::PreprocessedRow;

verus! {

/// A commitment key: its rows.
pub type CK = Vec<PreprocessedRow>;

/// The key rows of every length the chain commits over.
pub struct CRS {
    /// Keys by witness length (index `log2(length) - 1`), empty at the lengths
    /// no commitment is made over.
    pub cks: Vec<CK>,
}

/// The verifier's keys.
pub struct VerifierCRS {
    pub cks: Vec<CK>,
    /// The simple round's rows, which the verifier recommits with.
    pub simple_ck: CK,
}

/// The index of the key for witnesses of length `wit_dim`.
pub open spec fn key_index_spec(wit_dim: nat) -> int {
    log2(wit_dim) - 1
}

fn key_index(wit_dim: usize) -> (r: usize)
    requires
        wit_dim >= 2,
    ensures
        r == key_index_spec(wit_dim as nat),
{
    proof {
        if log2(wit_dim as nat) == 0 {
            assert(log2(wit_dim as nat) == 1 + log2((wit_dim / 2) as nat));
        }
    }
    ilog2(wit_dim) - 1
}

impl VerifierCRS {
    /// The key for witnesses of length `wit_dim`.
    pub fn ck_for_wit_dim(&self, wit_dim: usize) -> (r: &CK)
        requires
            wit_dim >= 2,
            key_index_spec(wit_dim as nat) < self.cks@.len(),
        ensures
            *r == self.cks@[key_index_spec(wit_dim as nat)],
    {
        &self.cks[key_index(wit_dim)]
    }
}

impl CRS {
    /// The key for witnesses of length `wit_dim`.
    pub fn ck_for_wit_dim(&self, wit_dim: usize) -> (r: &CK)
        requires
            wit_dim >= 2,
            key_index_spec(wit_dim as nat) < self.cks@.len(),
        ensures
            *r == self.cks@[key_index_spec(wit_dim as nat)],
    {
        &self.cks[key_index(wit_dim)]
    }
}

/// The stream seed of row `row` of the key of length `len`: a domain tag, then
/// the length and the row index, little-endian. The stream is keyed by the
/// length and the row alone, so a row is the same however many rows are asked
/// for.
pub open spec fn row_seed(len: nat, row: nat) -> Seq<u8> {
    seq![0x63u8, 0x72u8, 0x73u8] + le_bytes(len) + le_bytes(row)
}

fn row_seed_bytes(len: usize, row: usize) -> (r: Vec<u8>)
    ensures
        r@ == row_seed(len as nat, row as nat),
{
    let mut seed: Vec<u8> = vec![0x63u8, 0x72u8, 0x73u8];
    push_le_bytes(&mut seed, len as u64);
    push_le_bytes(&mut seed, row as u64);
    seed
}

/// Entry `k` of row `row` of the dense key of length `len`.
pub open spec fn key_entry(len: nat, row: nat, k: int) -> Seq<(int, int)> {
    element_at(
        blake3_xof_spec(row_seed(len, row), (len * ELEMENT_BYTES) as nat),
        k * ELEMENT_BYTES,
    )
}

/// The row `row` of the dense key of length `len` is these entries.
pub open spec fn is_key_row(r: PreprocessedRow, len: nat, row: nat) -> bool {
    &&& r.preprocessed_row@.len() == len
    &&& vec_wf(r.preprocessed_row@)
    &&& forall|k: int| 0 <= k < len ==> #[trigger] r.preprocessed_row@[k]@ == key_entry(len, row, k)
}

/// The `rows` rows of the dense key of length `len`.
fn dense_ck(len: usize, rows: usize) -> (r: CK)
    requires
        len * ELEMENT_BYTES <= usize::MAX,
    ensures
        r@.len() == rows,
        forall|j: int| 0 <= j < rows ==> #[trigger] is_key_row(r@[j], len as nat, j as nat),
{
    let mut out: CK = Vec::with_capacity(rows);
    let mut j: usize = 0;
    while j < rows
        invariant
            j <= rows,
            len * ELEMENT_BYTES <= usize::MAX,
            out@.len() == j,
            forall|t: int| 0 <= t < j ==> #[trigger] is_key_row(out@[t], len as nat, t as nat),
        decreases rows - j,
    {
        let seed = row_seed_bytes(len, j);
        let row = sample_public_vector_from_seed(&seed, len);
        out.push(PreprocessedRow { preprocessed_row: row });
        j = j + 1;
    }
    out
}

/// The rows wanted of the key at `index`: the most any shape of that length
/// asks for, zero when none does.
pub open spec fn rows_wanted(shapes: Seq<(usize, usize)>, n: nat, index: int) -> nat
    decreases n,
{
    if n == 0 {
        0
    } else {
        let prev = rows_wanted(shapes, (n - 1) as nat, index);
        let (len, wanted) = shapes[n - 1];
        if key_index_spec(len as nat) == index && wanted > prev {
            wanted as nat
        } else {
            prev
        }
    }
}

/// The number of keys the shapes need: one past the largest key index.
pub open spec fn cks_len(shapes: Seq<(usize, usize)>, n: nat) -> nat
    decreases n,
{
    if n == 0 {
        0
    } else {
        let prev = cks_len(shapes, (n - 1) as nat);
        let need = key_index_spec(shapes[n - 1].0 as nat) + 1;
        if need > prev {
            need as nat
        } else {
            prev
        }
    }
}

/// The dense keys for every `(length, rows)` shape: one key per length, with
/// the most rows any shape of that length asks for.
fn gen_cks(shapes: &[(usize, usize)]) -> (r: Vec<CK>)
    requires
        forall|s: int|
            0 <= s < shapes@.len() ==> #[trigger] is_pow2(shapes@[s].0 as nat) && shapes@[s].0 >= 2
                && shapes@[s].0 * ELEMENT_BYTES <= usize::MAX,
    ensures
        r@.len() == cks_len(shapes@, shapes@.len()),
        forall|s: int|
            0 <= s < shapes@.len() ==> key_index_spec(#[trigger] shapes@[s].0 as nat) < r@.len(),
        forall|index: int|
            0 <= index < r@.len() ==> (#[trigger] r@[index])@.len() == rows_wanted(
                shapes@,
                shapes@.len(),
                index,
            ),
        forall|index: int, j: int|
            0 <= index < r@.len() && 0 <= j < r@[index]@.len() ==> #[trigger] is_key_row(
                r@[index]@[j],
                pow2((index + 1) as nat),
                j as nat,
            ),
{
    let mut rows: Vec<usize> = Vec::new();
    let mut s: usize = 0;
    while s < shapes.len()
        invariant
            s <= shapes@.len(),
            forall|t: int|
                0 <= t < shapes@.len() ==> #[trigger] is_pow2(shapes@[t].0 as nat) && shapes@[t].0
                    >= 2 && shapes@[t].0 * ELEMENT_BYTES <= usize::MAX,
            forall|t: int| 0 <= t < s ==> key_index_spec(#[trigger] shapes@[t].0 as nat) < rows@.len(),
            forall|index: int|
                0 <= index < rows@.len() ==> #[trigger] rows@[index] == rows_wanted(
                    shapes@,
                    s as nat,
                    index,
                ),
            rows@.len() <= 64,
            rows@.len() == cks_len(shapes@, s as nat),
        decreases shapes@.len() - s,
    {
        let (len, wanted) = shapes[s];
        assert(is_pow2(shapes@[s as int].0 as nat));
        let index = key_index(len);
        proof {
            crate::common::bits::lemma_log2_bound(len as nat);
        }
        let ghost before = rows@.len();
        while rows.len() <= index
            invariant
                index < 64,
                s <= shapes@.len(),
                before <= rows@.len(),
                rows@.len() == before || rows@.len() <= index + 1,
                forall|t: int| 0 <= t < s ==> key_index_spec(#[trigger] shapes@[t].0 as nat) < rows@.len(),
                forall|i: int|
                    0 <= i < rows@.len() ==> #[trigger] rows@[i] == rows_wanted(shapes@, s as nat, i),
                rows@.len() <= 64,
            decreases index + 1 - rows@.len(),
        {
            proof {
                lemma_rows_wanted_zero(shapes@, s as nat, rows@.len() as int);
            }
            rows.push(0);
        }
        if rows[index] < wanted {
            rows.set(index, wanted);
        }
        s = s + 1;
    }
    let mut out: Vec<CK> = Vec::with_capacity(rows.len());
    let mut index: usize = 0;
    while index < rows.len()
        invariant
            index <= rows@.len(),
            rows@.len() <= 64,
            rows@.len() == cks_len(shapes@, shapes@.len()),
            out@.len() == index,
            forall|t: int|
                0 <= t < shapes@.len() ==> #[trigger] is_pow2(shapes@[t].0 as nat) && shapes@[t].0
                    >= 2 && shapes@[t].0 * ELEMENT_BYTES <= usize::MAX,
            forall|t: int|
                0 <= t < shapes@.len() ==> key_index_spec(#[trigger] shapes@[t].0 as nat) < rows@.len(),
            forall|i: int|
                0 <= i < rows@.len() ==> #[trigger] rows@[i] == rows_wanted(
                    shapes@,
                    shapes@.len(),
                    i,
                ),
            forall|i: int| 0 <= i < index ==> (#[trigger] out@[i])@.len() == rows@[i],
            forall|i: int, j: int|
                0 <= i < index && 0 <= j < out@[i]@.len() ==> #[trigger] is_key_row(
                    out@[i]@[j],
                    pow2((i + 1) as nat),
                    j as nat,
                ),
        decreases rows@.len() - index,
    {
        if rows[index] == 0 {
            out.push(Vec::new());
        } else {
            proof {
                lemma_rows_wanted_from_shape(shapes@, shapes@.len(), index as int);
            }
            let ghost s_idx = choose|t: int|
                0 <= t < shapes@.len() && key_index_spec(shapes@[t].0 as nat) == index
                    && #[trigger] shapes@[t].1 == rows@[index as int];
            proof {
                let len = shapes@[s_idx].0;
                assert(is_pow2(shapes@[s_idx].0 as nat));
                lemma_pow2_log2(len as nat);
                assert(pow2((index + 1) as nat) == len);
            }
            let len = pow2_usize(index + 1);
            out.push(dense_ck(len, rows[index]));
        }
        index = index + 1;
    }
    out
}

proof fn lemma_rows_wanted_zero(shapes: Seq<(usize, usize)>, n: nat, index: int)
    requires
        n <= shapes.len(),
        forall|t: int| 0 <= t < n ==> key_index_spec(#[trigger] shapes[t].0 as nat) < index,
    ensures
        rows_wanted(shapes, n, index) == 0,
    decreases n,
{
    if n > 0 {
        lemma_rows_wanted_zero(shapes, (n - 1) as nat, index);
    }
}

proof fn lemma_rows_wanted_from_shape(shapes: Seq<(usize, usize)>, n: nat, index: int)
    requires
        n <= shapes.len(),
        rows_wanted(shapes, n, index) > 0,
    ensures
        exists|t: int|
            0 <= t < n && key_index_spec(shapes[t].0 as nat) == index && #[trigger] shapes[t].1
                == rows_wanted(shapes, n, index),
    decreases n,
{
    let prev = rows_wanted(shapes, (n - 1) as nat, index);
    if rows_wanted(shapes, n, index) != prev {
        assert(shapes[n - 1].1 == rows_wanted(shapes, n, index));
    } else {
        lemma_rows_wanted_from_shape(shapes, (n - 1) as nat, index);
    }
}

impl CRS {
    /// The keys for witnesses of length `max_wit_dim`: `max_module_size` rows.
    pub fn gen_crs(max_wit_dim: usize, max_module_size: usize) -> (r: CRS)
        requires
            is_pow2(max_wit_dim as nat),
            max_wit_dim >= 2,
            max_wit_dim * ELEMENT_BYTES <= usize::MAX,
        ensures
            r.cks@.len() == key_index_spec(max_wit_dim as nat) + 1,
            forall|index: int|
                0 <= index < key_index_spec(max_wit_dim as nat) ==> (#[trigger] r.cks@[index])@.len()
                    == 0,
            r.cks@[key_index_spec(max_wit_dim as nat)]@.len() == max_module_size,
            forall|j: int|
                0 <= j < max_module_size ==> #[trigger] is_key_row(
                    r.cks@[key_index_spec(max_wit_dim as nat)]@[j],
                    max_wit_dim as nat,
                    j as nat,
                ),
    {
        let shapes = [(max_wit_dim, max_module_size)];
        let ghost ki = key_index_spec(max_wit_dim as nat);
        proof {
            assert(shapes@.len() == 1);
            assert(shapes@[0] == (max_wit_dim, max_module_size));
            assert(cks_len(shapes@, 0) == 0);
        }
        let cks = gen_cks(&shapes);
        proof {
            assert(key_index_spec(shapes@[0].0 as nat) < cks@.len());
            lemma_pow2_log2(max_wit_dim as nat);
            assert forall|index: int| 0 <= index < cks@.len() implies #[trigger] rows_wanted(
                shapes@,
                1,
                index,
            ) == if index == ki {
                max_module_size as nat
            } else {
                0
            } by {
                assert(rows_wanted(shapes@, 0, index) == 0);
            }
            assert(cks@[ki]@.len() == max_module_size);
            assert(pow2((ki + 1) as nat) == max_wit_dim);
            assert forall|j: int| 0 <= j < max_module_size implies #[trigger] is_key_row(
                cks@[ki]@[j],
                max_wit_dim as nat,
                j as nat,
            ) by {
                assert(is_key_row(cks@[ki]@[j], pow2((ki + 1) as nat), j as nat));
            }
            if cks@.len() > ki + 1 {
                assert(rows_wanted(shapes@, 1, ki + 1) == 0);
            }
        }
        CRS { cks }
    }
}

/// A key row is determined by the key's length and the row's index alone: row
/// `row` of a key of length `len` is the same vector however many rows were
/// generated with it.
pub proof fn lemma_key_row_unique(a: PreprocessedRow, b: PreprocessedRow, len: nat, row: nat)
    requires
        is_key_row(a, len, row),
        is_key_row(b, len, row),
    ensures
        vec_view(a.preprocessed_row@) == vec_view(b.preprocessed_row@),
{
    assert(vec_view(a.preprocessed_row@) =~= vec_view(b.preprocessed_row@));
}

} // verus!
