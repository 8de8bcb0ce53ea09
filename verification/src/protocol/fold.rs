//! Folding a witness matrix into one column with the verifier's challenges.
use vstd::prelude::*;
use crate::common::algebra::{sadd, sconst, smul};
use crate::common::config::HALF_DEGREE;
use crate::common::matrix::{vec_view, vec_wf, VerticallyAlignedMatrix};
use crate::common::ring_arithmetic::RingElement;

verus! {

/// `sum_{col < n} challenge[col] * witness[row, col]`, accumulated in column
/// order.
pub open spec fn folded_entry(
    challenge: Seq<Seq<(int, int)>>,
    data: Seq<Seq<(int, int)>>,
    height: int,
    row: int,
    n: nat,
) -> Seq<(int, int)>
    decreases n,
{
    if n == 0 {
        sconst(HALF_DEGREE as nat, (0, 0))
    } else {
        sadd(
            folded_entry(challenge, data, height, row, (n - 1) as nat),
            smul(challenge[n - 1], data[(n - 1) * height + row]),
        )
    }
}

/// The one-column matrix whose row `r` is `sum_col challenge[col] * W[r, col]`
/// over the used columns of `witness`.
pub fn fold(
    witness: &VerticallyAlignedMatrix<RingElement>,
    fold_challenge: &Vec<RingElement>,
) -> (r: VerticallyAlignedMatrix<RingElement>)
    requires
        witness.wf(),
        fold_challenge@.len() == witness.width,
        vec_wf(fold_challenge@),
    ensures
        r.wf(),
        r.height == witness.height,
        r.width == 1,
        r.used_cols == 1,
        forall|row: int|
            0 <= row < r.height ==> #[trigger] r.data@[row]@ == folded_entry(
                vec_view(fold_challenge@),
                vec_view(witness.data@),
                witness.height as int,
                row,
                witness.used_cols as nat,
            ),
{
    let height = witness.height;
    let wlen = witness.data.len();
    let mut folded = VerticallyAlignedMatrix::new_zero_preallocated(height, 1);
    let used_cols = witness.used_cols;
    let mut col: usize = 0;
    while col < used_cols
        invariant
            col <= used_cols,
            used_cols == witness.used_cols,
            witness.wf(),
            wlen == witness.data@.len(),
            height == witness.height,
            fold_challenge@.len() == witness.width,
            vec_wf(fold_challenge@),
            folded.wf(),
            folded.height == height,
            folded.width == 1,
            folded.used_cols == 1,
            forall|row: int|
                0 <= row < height ==> #[trigger] folded.data@[row]@ == folded_entry(
                    vec_view(fold_challenge@),
                    vec_view(witness.data@),
                    height as int,
                    row,
                    col as nat,
                ),
        decreases used_cols - col,
    {
        let challenge = &fold_challenge[col];
        let mut row: usize = 0;
        while row < height
            invariant
                col < used_cols,
                used_cols == witness.used_cols,
                witness.wf(),
                wlen == witness.data@.len(),
                height == witness.height,
                fold_challenge@.len() == witness.width,
                vec_wf(fold_challenge@),
                *challenge == fold_challenge@[col as int],
                row <= height,
                folded.wf(),
                folded.height == height,
                folded.width == 1,
                folded.used_cols == 1,
                forall|r: int|
                    0 <= r < height ==> #[trigger] folded.data@[r]@ == folded_entry(
                        vec_view(fold_challenge@),
                        vec_view(witness.data@),
                        height as int,
                        r,
                        if r < row {
                            (col + 1) as nat
                        } else {
                            col as nat
                        },
                    ),
            decreases height - row,
        {
            proof {
                assert(col * height + row < witness.width * witness.height) by (nonlinear_arith)
                    requires
                        col < witness.width,
                        row < height,
                        height == witness.height,
                ;
            }
            let temp = challenge.mul(&witness.data[col * height + row]);
            let acc = folded.data[row].add(&temp);
            folded.data.set(row, acc);
            row = row + 1;
        }
        col = col + 1;
    }
    folded
}

} // verus!
