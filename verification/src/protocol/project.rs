//! The sparse form of a projection matrix: per row, the columns of its `+1`
//! and of its `-1` entries.
use vstd::prelude::*;
use crate::common::projection_matrix::ProjectionMatrix;

verus! {

/// The columns of one row's `+1` and `-1` entries, in increasing order.
#[derive(Clone)]
pub struct RowPattern {
    pub pos: Vec<u16>,
    pub neg: Vec<u16>,
}

/// The sparse rows of a projection matrix.
pub struct ProjectionPlan {
    pub projection_ratio: usize,
    pub rows: Vec<RowPattern>,
}

/// The columns `i < n` of row `row` whose entry is non-zero with sign
/// `positive`, each as a 16-bit index.
pub open spec fn pattern(pm: ProjectionMatrix, row: int, n: nat, positive: bool) -> Seq<u16>
    decreases n,
{
    if n == 0 {
        Seq::empty()
    } else {
        let (is_positive, is_non_zero) = pm.at(row, n - 1);
        let prev = pattern(pm, row, (n - 1) as nat, positive);
        if is_non_zero && is_positive == positive {
            prev.push((n - 1) as u16)
        } else {
            prev
        }
    }
}

/// Each row's `+1` and `-1` columns.
pub fn build_plan(pm: &ProjectionMatrix) -> (r: ProjectionPlan)
    requires
        pm.wf(),
    ensures
        r.projection_ratio == pm.projection_ratio,
        r.rows@.len() == pm.projection_height,
        forall|row: int|
            0 <= row < pm.projection_height ==> (#[trigger] r.rows@[row]).pos@ == pattern(
                *pm,
                row,
                pm.row_len() as nat,
                true,
            ) && r.rows@[row].neg@ == pattern(*pm, row, pm.row_len() as nat, false),
{
    let n = pm.entries.len();
    proof {
        assert(pm.row_len() <= pm.projection_height * pm.row_len()) by (nonlinear_arith)
            requires
                pm.projection_height >= 1,
                pm.row_len() >= 0,
        ;
    }
    let row_len = pm.projection_ratio * pm.projection_height;
    let mut rows: Vec<RowPattern> = Vec::with_capacity(pm.projection_height);
    let mut inner_row: usize = 0;
    while inner_row < pm.projection_height
        invariant
            pm.wf(),
            n == pm.entries@.len(),
            row_len == pm.row_len(),
            inner_row <= pm.projection_height,
            rows@.len() == inner_row,
            forall|row: int|
                0 <= row < inner_row ==> (#[trigger] rows@[row]).pos@ == pattern(
                    *pm,
                    row,
                    row_len as nat,
                    true,
                ) && rows@[row].neg@ == pattern(*pm, row, row_len as nat, false),
        decreases pm.projection_height - inner_row,
    {
        let mut pos: Vec<u16> = Vec::new();
        let mut neg: Vec<u16> = Vec::new();
        let mut i: usize = 0;
        while i < row_len
            invariant
                pm.wf(),
                row_len == pm.row_len(),
                inner_row < pm.projection_height,
                i <= row_len,
                pos@ == pattern(*pm, inner_row as int, i as nat, true),
                neg@ == pattern(*pm, inner_row as int, i as nat, false),
            decreases row_len - i,
        {
            let (is_positive, is_non_zero) = pm.get(inner_row, i);
            if is_non_zero {
                if is_positive {
                    pos.push(i as u16);
                } else {
                    neg.push(i as u16);
                }
            }
            i = i + 1;
        }
        rows.push(RowPattern { pos, neg });
        inner_row = inner_row + 1;
    }
    ProjectionPlan { projection_ratio: pm.projection_ratio, rows }
}

} // verus!
