//! Vertices of the boolean hypercube `{0,1}^n`, held as bit masks.
use vstd::prelude::*;

verus! {

/// A vertex of `{0,1}^n`: bit `i` of `coordinates` is coordinate `i`.
#[derive(Clone, Copy, Debug)]
pub struct HypercubePoint {
    pub coordinates: usize,
}

impl HypercubePoint {
    pub fn new(coordinates: usize) -> (r: HypercubePoint)
        ensures
            r.coordinates == coordinates,
    {
        HypercubePoint { coordinates }
    }

    /// The vertex `shift` positions further along the index order.
    pub fn moved(&self, shift: usize) -> (r: HypercubePoint)
        requires
            self.coordinates + shift <= usize::MAX,
        ensures
            r.coordinates == self.coordinates + shift,
    {
        HypercubePoint { coordinates: self.coordinates + shift }
    }

    /// The vertex with its lowest `shift` coordinates dropped.
    pub fn shifted(&self, shift: usize) -> (r: HypercubePoint)
        requires
            shift < usize::BITS,
        ensures
            r.coordinates == self.coordinates >> shift,
    {
        HypercubePoint { coordinates: self.coordinates >> shift }
    }

    /// The vertex restricted to the coordinates selected by `mask`.
    pub fn masked(&self, mask: usize) -> (r: HypercubePoint)
        ensures
            r.coordinates == self.coordinates & mask,
    {
        HypercubePoint { coordinates: self.coordinates & mask }
    }
}

} // verus!
