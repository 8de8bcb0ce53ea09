//! Capturing the state of a chain at a chosen round: the capture counts
//! down the rounds until it reaches its cut, then fills its slot.
use vstd::prelude::*;

verus! {

/// A pending capture: `cut` rounds remain until the one to capture (one
/// means this round), and `slot` receives what is captured there.
pub struct BoundaryCapture<'a, B> {
    pub cut: usize,
    pub slot: &'a mut Option<B>,
}

impl<'a, B> BoundaryCapture<'a, B> {
    /// The capture is at its cut: this is the round it takes.
    pub fn is_at_cut(&self) -> (r: bool)
        requires
            self.cut > 0,
        ensures
            r == (self.cut == 1),
    {
        self.cut == 1
    }

    /// The capture for the next round: the same slot one round nearer, or
    /// nothing once the cut has been reached.
    pub fn advance(self) -> (r: Option<Self>)
        requires
            self.cut > 0,
        ensures
            self.cut == 1 ==> r is None,
            self.cut > 1 ==> (r matches Some(next) && next.cut == self.cut - 1 && mut_ref_current(next.slot) == mut_ref_current(self.slot) && mut_ref_future(next.slot) == mut_ref_future(self.slot)),
    {
        if self.cut == 1 {
            None
        } else {
            Some(BoundaryCapture { cut: self.cut - 1, slot: self.slot })
        }
    }
}

} // verus!
