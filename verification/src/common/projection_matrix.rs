//! The ternary projection matrix `J` of the Johnson-Lindenstrauss step.
use vstd::prelude::*;

verus! {

/// A `projection_height x (projection_ratio * projection_height)` matrix over
/// `{-1, 0, 1}`, row-major: entry `(row, i)` is `(is_positive, is_non_zero)`.
pub struct ProjectionMatrix {
    pub projection_ratio: usize,
    pub projection_height: usize,
    pub entries: Vec<(bool, bool)>,
}

impl ProjectionMatrix {
    /// The length of a row.
    pub open spec fn row_len(&self) -> int {
        self.projection_ratio * self.projection_height
    }

    /// The entries fill the matrix.
    pub open spec fn wf(&self) -> bool {
        &&& self.projection_ratio > 0
        &&& self.projection_height > 0
        &&& self.entries@.len() == self.projection_height * self.row_len()
    }

    /// Entry `(row, i)`.
    pub open spec fn at(&self, row: int, i: int) -> (bool, bool) {
        self.entries@[row * self.row_len() + i]
    }

    /// Entry `(row, i)`.
    pub fn get(&self, row: usize, i: usize) -> (r: (bool, bool))
        requires
            self.wf(),
            row < self.projection_height,
            i < self.row_len(),
        ensures
            r == self.at(row as int, i as int),
    {
        let n = self.entries.len();
        proof {
            assert(row * self.row_len() + i < self.projection_height * self.row_len())
                by (nonlinear_arith)
                requires
                    row < self.projection_height,
                    i < self.row_len(),
            ;
            assert(self.row_len() <= self.projection_height * self.row_len()) by (nonlinear_arith)
                requires
                    self.projection_height >= 1,
                    self.row_len() >= 0,
            ;
            assert(row * self.row_len() <= self.projection_height * self.row_len()) by (nonlinear_arith)
                requires
                    row < self.projection_height,
                    self.row_len() >= 0,
            ;
            assert(self.row_len() == self.projection_ratio * self.projection_height);
        }
        self.entries[row * (self.projection_ratio * self.projection_height) + i]
    }
}

} // verus!
