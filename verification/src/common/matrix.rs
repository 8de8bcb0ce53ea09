//! Dense matrices of ring elements in column-major and row-major layout.
use vstd::prelude::*;
use crate::common::algebra::sconst;
use crate::common::config::HALF_DEGREE;
use crate::common::ring_arithmetic::{Representation, RingElement};

verus! {

/// Column-major matrix: entry `(row, col)` is `data[col * height + row]`.
/// Columns from `used_cols` on are zero.
pub struct VerticallyAlignedMatrix<T> {
    pub data: Vec<T>,
    pub width: usize,
    pub height: usize,
    pub used_cols: usize,
}

/// Row-major matrix: entry `(row, col)` is `data[row * width + col]`.
pub struct HorizontallyAlignedMatrix<T> {
    pub data: Vec<T>,
    pub width: usize,
    pub height: usize,
}

/// Every entry of a vector is a ring element.
pub open spec fn vec_wf(v: Seq<RingElement>) -> bool {
    forall|i: int| 0 <= i < v.len() ==> (#[trigger] v[i]).wf()
}

/// The slots of every entry of a vector.
pub open spec fn vec_view(v: Seq<RingElement>) -> Seq<Seq<(int, int)>> {
    Seq::new(v.len(), |i: int| v[i]@)
}

impl VerticallyAlignedMatrix<RingElement> {
    /// Shape and entries are consistent.
    pub open spec fn wf(&self) -> bool {
        &&& self.data@.len() == self.width * self.height
        &&& self.used_cols <= self.width
        &&& vec_wf(self.data@)
    }

    /// Entry `(row, col)`, slot-wise.
    pub open spec fn entry(&self, row: int, col: int) -> Seq<(int, int)> {
        self.data@[col * self.height + row]@
    }

    /// The zero `height x width` matrix.
    pub fn new_zero_preallocated(height: usize, width: usize) -> (r: VerticallyAlignedMatrix<
        RingElement,
    >)
        requires
            height * width <= usize::MAX,
        ensures
            r.wf(),
            r.height == height,
            r.width == width,
            r.used_cols == width,
            forall|i: int|
                0 <= i < height * width ==> #[trigger] r.data@[i]@ == sconst(
                    HALF_DEGREE as nat,
                    (0, 0),
                ),
    {
        let n = height * width;
        let mut data: Vec<RingElement> = Vec::with_capacity(n);
        let mut i: usize = 0;
        while i < n
            invariant
                i <= n,
                data@.len() == i,
                forall|k: int|
                    0 <= k < i ==> (#[trigger] data@[k]).wf() && data@[k]@ == sconst(
                        HALF_DEGREE as nat,
                        (0, 0),
                    ),
            decreases n - i,
        {
            data.push(RingElement::zero(Representation::IncompleteNTT));
            i = i + 1;
        }
        assert(height * width == width * height) by (nonlinear_arith);
        VerticallyAlignedMatrix { data, width, height, used_cols: width }
    }
}

impl HorizontallyAlignedMatrix<RingElement> {
    /// Shape and entries are consistent.
    pub open spec fn wf(&self) -> bool {
        &&& self.data@.len() == self.width * self.height
        &&& vec_wf(self.data@)
    }

    /// Entry `(row, col)`, slot-wise.
    pub open spec fn entry(&self, row: int, col: int) -> Seq<(int, int)> {
        self.data@[row * self.width + col]@
    }
}

} // verus!
