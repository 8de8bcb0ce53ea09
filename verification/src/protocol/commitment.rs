//! The basic commitment: inner products of key rows with witness columns,
//! and the addressing of dyadic blocks of the committed vector.
use vstd::prelude::*;
use crate::common::algebra::{sadd, sconst, smul};
use crate::common::bits::is_pow2;
use crate::common::config::HALF_DEGREE;
use crate::common::matrix::{vec_view, vec_wf, HorizontallyAlignedMatrix, VerticallyAlignedMatrix};
use crate::common::ring_arithmetic::{Representation, RingElement};
use crate::protocol::crs_standard::{key_index_spec, CK, CRS};

verus! {

/// The block of the committed vector whose indices start with the binary
/// `prefix` of `length` bits (most-significant bits first).
#[derive(Clone, Copy, Debug, PartialEq, Eq)]
pub struct Prefix {
    pub prefix: usize,
    pub length: usize,
}

/// `sum_{k < n} a[k] * b[off + k]`, accumulated in order.
pub open spec fn inner_product(a: Seq<Seq<(int, int)>>, b: Seq<Seq<(int, int)>>, off: int, n: nat) -> Seq<
    (int, int),
>
    decreases n,
{
    if n == 0 {
        sconst(HALF_DEGREE as nat, (0, 0))
    } else {
        sadd(inner_product(a, b, off, (n - 1) as nat), smul(a[n - 1], b[off + n - 1]))
    }
}

/// The commitment entry of key row `row` and witness column `col`: the inner
/// product of the row with the column, over the shorter of the two.
pub open spec fn commitment_entry(
    ck: CK,
    witness: VerticallyAlignedMatrix<RingElement>,
    row: int,
    col: int,
) -> Seq<(int, int)> {
    let key = vec_view(ck@[row].preprocessed_row@);
    let n = if key.len() <= witness.height {
        key.len()
    } else {
        witness.height as nat
    };
    inner_product(key, vec_view(witness.data@), col * witness.height, n)
}

/// The smallest power of two at least `n` (for `n >= 1`).
pub open spec fn is_next_pow2(p: nat, n: nat) -> bool {
    is_pow2(p) && p >= n && p / 2 < n
}

pub(crate) fn next_power_of_two(n: usize) -> (r: usize)
    requires
        1 <= n <= usize::MAX / 2 + 1,
    ensures
        is_next_pow2(r as nat, n as nat),
{
    let mut p: usize = 1;
    while p < n
        invariant
            1 <= p,
            is_pow2(p as nat),
            p / 2 < n,
            n <= usize::MAX / 2 + 1,
        decreases usize::MAX - p,
    {
        proof {
            assert((2 * p) as nat / 2 == p as nat);
            assert(is_pow2((2 * p) as nat));
        }
        p = p * 2;
    }
    p
}

/// `acc := acc + sum_k ck_row[k] * operand[off + k]`, over the shorter of the
/// row and the column of `len` entries at `off`.
fn inner_product_into(acc: &mut RingElement, ck_row: &Vec<RingElement>, operand: &Vec<RingElement>, off: usize, len: usize)
    requires
        old(acc).wf(),
        old(acc)@ == sconst(HALF_DEGREE as nat, (0, 0)),
        vec_wf(ck_row@),
        vec_wf(operand@),
        off + len <= operand@.len(),
    ensures
        final(acc).wf(),
        final(acc)@ == inner_product(
            vec_view(ck_row@),
            vec_view(operand@),
            off as int,
            if ck_row@.len() <= len {
                ck_row@.len()
            } else {
                len as nat
            },
        ),
{
    let olen = operand.len();
    let n = if ck_row.len() <= len {
        ck_row.len()
    } else {
        len
    };
    let mut k: usize = 0;
    while k < n
        invariant
            k <= n,
            olen == operand@.len(),
            n <= ck_row@.len(),
            off + n <= operand@.len(),
            vec_wf(ck_row@),
            vec_wf(operand@),
            acc.wf(),
            acc@ == inner_product(vec_view(ck_row@), vec_view(operand@), off as int, k as nat),
        decreases n - k,
    {
        let temp = ck_row[k].mul(&operand[off + k]);
        *acc = acc.add(&temp);
        k = k + 1;
    }
}

/// One commitment per (key row, witness column): `rank` rows, padded with zero
/// rows to a power of two, and one column per witness column; columns from
/// `used_cols` on stay zero.
pub fn commit_basic_internal(
    ck: &CK,
    witness: &VerticallyAlignedMatrix<RingElement>,
    rank: usize,
) -> (r: HorizontallyAlignedMatrix<RingElement>)
    requires
        witness.wf(),
        rank <= ck@.len(),
        forall|i: int| 0 <= i < rank ==> #[trigger] vec_wf(ck@[i].preprocessed_row@),
        2 * rank <= usize::MAX,
        2 * rank * witness.width <= usize::MAX,
    ensures
        r.wf(),
        r.width == witness.width,
        rank == 0 ==> r.height == 0,
        rank > 0 ==> is_next_pow2(r.height as nat, rank as nat),
        forall|i: int, col: int|
            0 <= i < r.height && 0 <= col < r.width ==> #[trigger] r.entry(i, col) == if i < rank
                && col < witness.used_cols {
                commitment_entry(*ck, *witness, i, col)
            } else {
                sconst(HALF_DEGREE as nat, (0, 0))
            },
{
    let width = witness.width;
    let wlen = witness.data.len();
    if rank == 0 {
        assert(width * 0 == 0);
        return HorizontallyAlignedMatrix { data: Vec::new(), width, height: 0 };
    }
    let height = next_power_of_two(rank);
    proof {
        assert(height <= 2 * rank);
        assert(height * width <= 2 * rank * width) by (nonlinear_arith)
            requires
                height <= 2 * rank,
        ;
    }
    let n = height * width;
    let mut data: Vec<RingElement> = Vec::with_capacity(n);
    let mut t: usize = 0;
    while t < n
        invariant
            t <= n,
            data@.len() == t,
            vec_wf(data@),
            forall|s: int| 0 <= s < t ==> #[trigger] data@[s]@ == sconst(HALF_DEGREE as nat, (0, 0)),
        decreases n - t,
    {
        data.push(RingElement::zero(Representation::IncompleteNTT));
        t = t + 1;
    }
    let mut commitment = HorizontallyAlignedMatrix { data, width, height };
    proof {
        assert forall|a: int, col: int|
            0 <= a < height && 0 <= col < width implies #[trigger] commitment.entry(a, col)
            == sconst(HALF_DEGREE as nat, (0, 0)) by {
            lemma_row_major_bound(a, col, height as int, width as int);
        }
    }
    let mut i: usize = 0;
    while i < rank
        invariant
            i <= rank,
            rank <= height,
            n == height * width,
            width == witness.width,
            witness.wf(),
            wlen == witness.data@.len(),
            rank <= ck@.len(),
            forall|s: int| 0 <= s < rank ==> #[trigger] vec_wf(ck@[s].preprocessed_row@),
            commitment.width == width,
            commitment.height == height,
            commitment.wf(),
            forall|a: int, col: int|
                0 <= a < height && 0 <= col < width ==> #[trigger] commitment.entry(a, col) == if a
                    < i && col < witness.used_cols {
                    commitment_entry(*ck, *witness, a, col)
                } else {
                    sconst(HALF_DEGREE as nat, (0, 0))
                },
        decreases rank - i,
    {
        let row = &ck[i].preprocessed_row;
        assert(vec_wf(ck@[i as int].preprocessed_row@));
        let mut col: usize = 0;
        while col < witness.used_cols
            invariant
                i < rank,
                rank <= height,
                n == height * width,
                width == witness.width,
                witness.wf(),
                wlen == witness.data@.len(),
                vec_wf(row@),
                *row == ck@[i as int].preprocessed_row,
                commitment.width == width,
                commitment.height == height,
                commitment.wf(),
                col <= witness.used_cols,
                forall|a: int, c: int|
                    0 <= a < height && 0 <= c < width ==> #[trigger] commitment.entry(a, c) == if (a
                        < i && c < witness.used_cols) || (a == i && c < col) {
                        commitment_entry(*ck, *witness, a, c)
                    } else {
                        sconst(HALF_DEGREE as nat, (0, 0))
                    },
            decreases witness.used_cols - col,
        {
            proof {
                assert(i * width + col < n) by (nonlinear_arith)
                    requires
                        i < height,
                        col < width,
                        n == height * width,
                ;
                assert((col + 1) * witness.height <= witness.width * witness.height)
                    by (nonlinear_arith)
                    requires
                        col < witness.width,
                ;
                assert(col * witness.height + witness.height == (col + 1) * witness.height)
                    by (nonlinear_arith);
            }
            let index = i * width + col;
            let mut acc = RingElement::zero(Representation::IncompleteNTT);
            inner_product_into(&mut acc, row, &witness.data, col * witness.height, witness.height);
            let ghost prev = commitment;
            commitment.data.set(index, acc);
            proof {
                assert forall|a: int, c: int|
                    0 <= a < height && 0 <= c < width implies #[trigger] commitment.entry(a, c)
                    == if (a < i && c < witness.used_cols) || (a == i && c < col + 1) {
                    commitment_entry(*ck, *witness, a, c)
                } else {
                    sconst(HALF_DEGREE as nat, (0, 0))
                } by {
                    lemma_row_major_bound(a, c, height as int, width as int);
                    if a * width + c == index {
                        lemma_row_major_index(a, c, i as int, col as int, width as int);
                    } else {
                        assert(commitment.entry(a, c) == prev.entry(a, c));
                    }
                }
            }
            col = col + 1;
        }
        proof {
            assert forall|a: int, c: int|
                0 <= a < height && 0 <= c < width implies #[trigger] commitment.entry(a, c) == if a
                < i + 1 && c < witness.used_cols {
                commitment_entry(*ck, *witness, a, c)
            } else {
                sconst(HALF_DEGREE as nat, (0, 0))
            } by {
            }
        }
        i = i + 1;
    }
    commitment
}

/// A cell of a row-major matrix lies inside it.
proof fn lemma_row_major_bound(a: int, c: int, height: int, width: int)
    requires
        0 <= a < height,
        0 <= c < width,
    ensures
        0 <= a * width + c < height * width,
{
    assert(a * width + c < height * width) by (nonlinear_arith)
        requires
            a < height,
            c < width,
            0 <= a,
            0 <= c,
    ;
    assert(0 <= a * width) by (nonlinear_arith)
        requires
            0 <= a,
            0 <= width,
    ;
}

/// Distinct cells of a row-major matrix have distinct indices.
proof fn lemma_row_major_index(a: int, c: int, i: int, col: int, width: int)
    requires
        0 <= c < width,
        0 <= col < width,
        0 <= a,
        0 <= i,
        a * width + c == i * width + col,
    ensures
        a == i,
        c == col,
{
    if a < i {
        assert(a * width + c < i * width + col) by (nonlinear_arith)
            requires
                a < i,
                0 <= c < width,
                0 <= col,
        ;
    } else if a > i {
        assert(a * width + c > i * width + col) by (nonlinear_arith)
            requires
                a > i,
                0 <= col < width,
                0 <= c,
        ;
    }
}

/// The first-level commitment of `witness` under the key of its height.
pub fn commit_basic(
    crs: &CRS,
    witness: &VerticallyAlignedMatrix<RingElement>,
    rank: usize,
) -> (r: HorizontallyAlignedMatrix<RingElement>)
    requires
        witness.wf(),
        witness.height >= 2,
        key_index_spec(witness.height as nat) < crs.cks@.len(),
        rank <= crs.cks@[key_index_spec(witness.height as nat)]@.len(),
        forall|i: int|
            0 <= i < rank ==> #[trigger] vec_wf(
                crs.cks@[key_index_spec(witness.height as nat)]@[i].preprocessed_row@,
            ),
        2 * rank <= usize::MAX,
        2 * rank * witness.width <= usize::MAX,
    ensures
        r.wf(),
        r.width == witness.width,
        rank == 0 ==> r.height == 0,
        rank > 0 ==> is_next_pow2(r.height as nat, rank as nat),
        forall|i: int, col: int|
            0 <= i < r.height && 0 <= col < r.width ==> #[trigger] r.entry(i, col) == if i < rank
                && col < witness.used_cols {
                commitment_entry(crs.cks@[key_index_spec(witness.height as nat)], *witness, i, col)
            } else {
                sconst(HALF_DEGREE as nat, (0, 0))
            },
{
    let ck = crs.ck_for_wit_dim(witness.height);
    commit_basic_internal(ck, witness, rank)
}


} // verus!
