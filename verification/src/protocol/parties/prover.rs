//! The prover's outer evaluation claims.
use vstd::prelude::*;
use vstd::arithmetic::power2::pow2;
use crate::common::algebra::{sadd, sconst, smul};
use crate::common::config::HALF_DEGREE;
use crate::common::matrix::{vec_view, vec_wf, HorizontallyAlignedMatrix};
use crate::common::ring_arithmetic::{Representation, RingElement};
use crate::common::structured_row::{rtensor_val, PreprocessedRow, StructuredRow};

verus! {

/// `sum_{col < n} rhs[row, col] * tensor(point)[col]`.
pub open spec fn outer_claim(
    rhs: HorizontallyAlignedMatrix<RingElement>,
    point: StructuredRow,
    row: int,
    n: nat,
) -> Seq<(int, int)>
    decreases n,
{
    if n == 0 {
        sconst(HALF_DEGREE as nat, (0, 0))
    } else {
        sadd(
            outer_claim(rhs, point, row, (n - 1) as nat),
            smul(rhs.entry(row, n - 1), rtensor_val(vec_view(point.tensor_layers@), n - 1)),
        )
    }
}

/// The outer evaluation claims `t_j = <T[j, :], r_j>`: row `j` of `rhs`
/// against the expanded evaluation row `j`.
pub fn outer_eval_claims(
    rhs: &HorizontallyAlignedMatrix<RingElement>,
    evaluation_points_outer: &Vec<StructuredRow>,
) -> (r: Vec<RingElement>)
    requires
        rhs.wf(),
        evaluation_points_outer@.len() >= rhs.height,
        forall|i: int|
            0 <= i < rhs.height ==> #[trigger] vec_wf(evaluation_points_outer@[i].tensor_layers@)
                && pow2(evaluation_points_outer@[i].tensor_layers@.len() as nat) <= usize::MAX
                && pow2(evaluation_points_outer@[i].tensor_layers@.len() as nat) >= rhs.width,
    ensures
        r@.len() == rhs.height,
        vec_wf(r@),
        forall|i: int|
            0 <= i < rhs.height ==> #[trigger] r@[i]@ == outer_claim(
                *rhs,
                evaluation_points_outer@[i],
                i,
                rhs.width as nat,
            ),
{
    let dlen = rhs.data.len();
    let mut result: Vec<RingElement> = Vec::with_capacity(rhs.height);
    let mut i: usize = 0;
    while i < rhs.height
        invariant
            i <= rhs.height,
            rhs.wf(),
            dlen == rhs.data@.len(),
            evaluation_points_outer@.len() >= rhs.height,
            forall|a: int|
                0 <= a < rhs.height ==> #[trigger] vec_wf(evaluation_points_outer@[a].tensor_layers@)
                    && pow2(evaluation_points_outer@[a].tensor_layers@.len() as nat) <= usize::MAX
                    && pow2(evaluation_points_outer@[a].tensor_layers@.len() as nat) >= rhs.width,
            result@.len() == i,
            vec_wf(result@),
            forall|a: int|
                0 <= a < i ==> #[trigger] result@[a]@ == outer_claim(
                    *rhs,
                    evaluation_points_outer@[a],
                    a,
                    rhs.width as nat,
                ),
        decreases rhs.height - i,
    {
        assert(vec_wf(evaluation_points_outer@[i as int].tensor_layers@));
        let row = PreprocessedRow::from_structured_row(&evaluation_points_outer[i]);
        let mut acc = RingElement::zero(Representation::IncompleteNTT);
        let mut col: usize = 0;
        while col < rhs.width
            invariant
                i < rhs.height,
                rhs.wf(),
                dlen == rhs.data@.len(),
                col <= rhs.width,
                row.preprocessed_row@.len() >= rhs.width,
                vec_wf(row.preprocessed_row@),
                forall|k: int|
                    0 <= k < row.preprocessed_row@.len() ==> #[trigger] row.preprocessed_row@[k]@
                        == rtensor_val(vec_view(evaluation_points_outer@[i as int].tensor_layers@), k),
                acc.wf(),
                acc@ == outer_claim(*rhs, evaluation_points_outer@[i as int], i as int, col as nat),
            decreases rhs.width - col,
        {
            proof {
                assert(i * rhs.width + col < rhs.width * rhs.height) by (nonlinear_arith)
                    requires
                        i < rhs.height,
                        col < rhs.width,
                ;
            }
            let temp = rhs.data[i * rhs.width + col].mul(&row.preprocessed_row[col]);
            acc = acc.add(&temp);
            col = col + 1;
        }
        result.push(acc);
        i = i + 1;
    }
    result
}

} // verus!
