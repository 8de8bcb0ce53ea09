//! The coarse Johnson-Lindenstrauss projection `out[r] = sum_i J[r, i] w[i]`,
//! in ring arithmetic.
use vstd::prelude::*;
use crate::common::algebra::{sadd, sconst, ssub};
use crate::common::config::{DEGREE, HALF_DEGREE};
use crate::common::matrix::{vec_view, VerticallyAlignedMatrix};
use crate::common::projection_matrix::ProjectionMatrix;
use crate::common::ring_arithmetic::{Representation, RingElement};

verus! {

/// A ring element in the coefficient domain with coefficients narrowed to
/// 16 bits.
#[derive(Clone, Copy)]
pub struct Signed16RingElement(pub [i16; DEGREE]);

/// `sum_{i < n} J[inner_row, i] * data[base + i]` over the non-zero entries,
/// accumulated in order.
pub open spec fn projected(
    pm: ProjectionMatrix,
    data: Seq<Seq<(int, int)>>,
    base: int,
    inner_row: int,
    n: nat,
) -> Seq<(int, int)>
    decreases n,
{
    if n == 0 {
        sconst(HALF_DEGREE as nat, (0, 0))
    } else {
        let prev = projected(pm, data, base, inner_row, (n - 1) as nat);
        let (is_positive, is_non_zero) = pm.at(inner_row, n - 1);
        if !is_non_zero {
            prev
        } else if is_positive {
            sadd(prev, data[base + n - 1])
        } else {
            ssub(prev, data[base + n - 1])
        }
    }
}

/// The image row of output row `out_row` of column `col`: the projection of
/// its chunk of the column when the chunk is complete, zero otherwise.
pub open spec fn image_entry(
    pm: ProjectionMatrix,
    witness: VerticallyAlignedMatrix<RingElement>,
    out_row: int,
    col: int,
) -> Seq<(int, int)> {
    let image_height = witness.height as int / pm.projection_ratio as int;
    let chunks = image_height / pm.projection_height as int;
    let chunk = out_row / pm.projection_height as int;
    let inner_row = out_row % pm.projection_height as int;
    if chunk < chunks {
        projected(
            pm,
            vec_view(witness.data@),
            col * witness.height + chunk * pm.row_len(),
            inner_row,
            pm.row_len() as nat,
        )
    } else {
        sconst(HALF_DEGREE as nat, (0, 0))
    }
}

/// The projection image of every witness column, chunk by chunk: output row
/// `chunk * projection_height + r` of a column is row `r` of `J` against the
/// chunk's `projection_ratio * projection_height` entries.
pub fn project_ring(
    witness: &VerticallyAlignedMatrix<RingElement>,
    projection_matrix: &ProjectionMatrix,
) -> (r: VerticallyAlignedMatrix<RingElement>)
    requires
        witness.wf(),
        projection_matrix.wf(),
    ensures
        r.wf(),
        r.height == witness.height / projection_matrix.projection_ratio,
        r.width == witness.width,
        r.used_cols == witness.width,
        forall|out_row: int, col: int|
            0 <= out_row < r.height && 0 <= col < r.width ==> #[trigger] r.entry(out_row, col)
                == image_entry(*projection_matrix, *witness, out_row, col),
{
    let pm = projection_matrix;
    let wlen = witness.data.len();
    let plen = pm.entries.len();
    let ratio = pm.projection_ratio;
    let ph = pm.projection_height;
    let height = witness.height / ratio;
    let width = witness.width;
    proof {
        assert(pm.row_len() <= ph * pm.row_len()) by (nonlinear_arith)
            requires
                ph >= 1,
                pm.row_len() >= 0,
        ;
        assert(height * ratio <= witness.height) by (nonlinear_arith)
            requires
                height == witness.height / ratio,
                ratio > 0,
        ;
        assert(height * width <= witness.height * width) by (nonlinear_arith)
            requires
                height * ratio <= witness.height,
                ratio >= 1,
        ;
        assert(witness.height * width == width * witness.height) by (nonlinear_arith);
    }
    let mut image = VerticallyAlignedMatrix::new_zero_preallocated(height, width);
    let ilen = image.data.len();
    proof {
        assert forall|o: int, c: int|
            0 <= o < height && 0 <= c < width implies #[trigger] image.entry(o, c) == sconst(
            HALF_DEGREE as nat,
            (0, 0),
        ) by {
            lemma_cell_index(o, c, height as int, width as int);
            assert(width * height == height * width) by (nonlinear_arith);
        }
    }
    let row_len = ratio * ph;
    let chunks = height / ph;
    let mut col: usize = 0;
    while col < width
        invariant
            witness.wf(),
            pm.wf(),
            wlen == witness.data@.len(),
            plen == pm.entries@.len(),
            ratio == pm.projection_ratio,
            ph == pm.projection_height,
            row_len == pm.row_len(),
            height == witness.height / ratio,
            height * ratio <= witness.height,
            chunks == height / ph,
            width == witness.width,
            col <= width,
            ilen == image.data@.len(),
            image.wf(),
            image.height == height,
            image.width == width,
            image.used_cols == width,
            forall|out_row: int, c: int|
                0 <= out_row < height && 0 <= c < width ==> #[trigger] image.entry(out_row, c) == if c
                    < col {
                    image_entry(*pm, *witness, out_row, c)
                } else {
                    sconst(HALF_DEGREE as nat, (0, 0))
                },
        decreases width - col,
    {
        let mut out_row: usize = 0;
        while out_row < height
            invariant
                witness.wf(),
                pm.wf(),
                wlen == witness.data@.len(),
                plen == pm.entries@.len(),
                ratio == pm.projection_ratio,
                ph == pm.projection_height,
                row_len == pm.row_len(),
                height == witness.height / ratio,
                height * ratio <= witness.height,
                chunks == height / ph,
                width == witness.width,
                col < width,
                out_row <= height,
                ilen == image.data@.len(),
                image.wf(),
                image.height == height,
                image.width == width,
                image.used_cols == width,
                forall|o: int, c: int|
                    0 <= o < height && 0 <= c < width ==> #[trigger] image.entry(o, c) == if c < col
                        || (c == col && o < out_row) {
                        image_entry(*pm, *witness, o, c)
                    } else {
                        sconst(HALF_DEGREE as nat, (0, 0))
                    },
            decreases height - out_row,
        {
            let chunk = out_row / ph;
            let inner_row = out_row % ph;
            proof {
                lemma_cell_index(out_row as int, col as int, height as int, width as int);
            }
            if chunk < chunks {
                proof {
                    lemma_chunk_bounds(
                        chunk as int,
                        chunks as int,
                        ph as int,
                        ratio as int,
                        height as int,
                        witness.height as int,
                    );
                    assert(col * witness.height + witness.height <= witness.width * witness.height)
                        by (nonlinear_arith)
                        requires
                            col < witness.width,
                    ;
                }
                let base = col * witness.height + chunk * row_len;
                let mut acc = RingElement::zero(Representation::IncompleteNTT);
                let mut i: usize = 0;
                while i < row_len
                    invariant
                        witness.wf(),
                        pm.wf(),
                        wlen == witness.data@.len(),
                        row_len == pm.row_len(),
                        inner_row < pm.projection_height,
                        base + row_len <= wlen,
                        i <= row_len,
                        acc.wf(),
                        acc@ == projected(*pm, vec_view(witness.data@), base as int, inner_row as int, i as nat),
                    decreases row_len - i,
                {
                    let (is_positive, is_non_zero) = pm.get(inner_row, i);
                    if is_non_zero {
                        if is_positive {
                            acc = acc.add(&witness.data[base + i]);
                        } else {
                            acc = acc.sub(&witness.data[base + i]);
                        }
                    }
                    i = i + 1;
                }
                let ghost prev = image;
                image.data.set(col * height + out_row, acc);
                proof {
                    lemma_update_cell(prev, image, out_row as int, col as int);
                    assert(image.entry(out_row as int, col as int) == image_entry(
                        *pm,
                        *witness,
                        out_row as int,
                        col as int,
                    ));
                    assert forall|o: int, c: int|
                        0 <= o < height && 0 <= c < width implies #[trigger] image.entry(o, c) == if c
                        < col || (c == col && o < out_row + 1) {
                        image_entry(*pm, *witness, o, c)
                    } else {
                        sconst(HALF_DEGREE as nat, (0, 0))
                    } by {
                        if o != out_row || c != col {
                            assert(image.entry(o, c) == prev.entry(o, c));
                        }
                    }
                }
            } else {
                proof {
                    assert(image.entry(out_row as int, col as int) == sconst(HALF_DEGREE as nat, (0, 0)));
                    assert(image_entry(*pm, *witness, out_row as int, col as int) == sconst(
                        HALF_DEGREE as nat,
                        (0, 0),
                    ));
                }
            }
            out_row = out_row + 1;
        }
        col = col + 1;
    }
    image
}

/// The cell `(row, col)` of a column-major matrix lies inside it.
proof fn lemma_cell_index(row: int, col: int, height: int, width: int)
    requires
        0 <= row < height,
        0 <= col < width,
    ensures
        0 <= col * height + row < width * height,
{
    assert(col * height + row < width * height) by (nonlinear_arith)
        requires
            row < height,
            col < width,
            0 <= row,
            0 <= col,
    ;
    assert(0 <= col * height) by (nonlinear_arith)
        requires
            0 <= col,
            0 <= height,
    ;
}

/// A complete chunk lies inside its column.
proof fn lemma_chunk_bounds(chunk: int, chunks: int, ph: int, ratio: int, height: int, wheight: int)
    requires
        0 <= chunk < chunks,
        chunks == height / ph,
        ph > 0,
        ratio > 0,
        height >= 0,
        height * ratio <= wheight,
    ensures
        chunk * (ratio * ph) + ratio * ph <= wheight,
        0 <= chunk * (ratio * ph),
{
    assert(chunks * ph <= height) by (nonlinear_arith)
        requires
            chunks == height / ph,
            ph > 0,
            height >= 0,
    ;
    assert(chunk * (ratio * ph) + ratio * ph <= chunks * ph * ratio) by (nonlinear_arith)
        requires
            chunk < chunks,
            ratio > 0,
            ph > 0,
            0 <= chunk,
    ;
    assert(chunks * ph * ratio <= height * ratio) by (nonlinear_arith)
        requires
            chunks * ph <= height,
            ratio > 0,
    ;
    assert(0 <= chunk * (ratio * ph)) by (nonlinear_arith)
        requires
            0 <= chunk,
            ratio > 0,
            ph > 0,
    ;
}

/// Writing one cell of a column-major matrix leaves the others as they were.
proof fn lemma_update_cell(
    prev: VerticallyAlignedMatrix<RingElement>,
    next: VerticallyAlignedMatrix<RingElement>,
    row: int,
    col: int,
)
    requires
        prev.height == next.height,
        prev.width == next.width,
        next.data@.len() == prev.data@.len(),
        prev.data@.len() == prev.width * prev.height,
        0 <= row < prev.height,
        0 <= col < prev.width,
        forall|k: int|
            0 <= k < prev.data@.len() && k != col * prev.height + row ==> next.data@[k]
                == prev.data@[k],
    ensures
        forall|o: int, c: int|
            0 <= o < prev.height && 0 <= c < prev.width && (o != row || c != col) ==> next.entry(o, c)
                == #[trigger] prev.entry(o, c),
{
    assert forall|o: int, c: int|
        0 <= o < prev.height && 0 <= c < prev.width && (o != row || c != col) implies next.entry(o, c)
        == #[trigger] prev.entry(o, c) by {
        lemma_cell_index(o, c, prev.height as int, prev.width as int);
        if c * prev.height + o == col * prev.height + row {
            lemma_cell_distinct(o, c, row, col, prev.height as int);
        }
    }
}

proof fn lemma_cell_distinct(o: int, c: int, row: int, col: int, height: int)
    requires
        0 <= o < height,
        0 <= row < height,
        0 <= c,
        0 <= col,
        c * height + o == col * height + row,
    ensures
        o == row,
        c == col,
{
    if c < col {
        assert(c * height + o < col * height + row) by (nonlinear_arith)
            requires
                c < col,
                0 <= o < height,
                0 <= row,
        ;
    } else if c > col {
        assert(c * height + o > col * height + row) by (nonlinear_arith)
            requires
                c > col,
                0 <= row < height,
                0 <= o,
        ;
    }
}

} // verus!
