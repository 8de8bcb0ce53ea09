//! The Fiat-Shamir transcript: absorbed bytes, and challenges squeezed from
//! them by the BLAKE3 extendable-output function.
use vstd::prelude::*;
use crate::common::algebra::preduced;
use crate::common::config::HALF_DEGREE;
use crate::common::ring_arithmetic::{QuadraticExtension, RingElement};
use crate::common::sampling::{blake3_xof, blake3_xof_spec, field_at, le_bytes, push_le_bytes, read_field};

verus! {

/// A transcript: everything absorbed so far, and how many challenges were
/// drawn since.
pub struct HashWrapper {
    absorbed: Vec<u8>,
    squeezed: u64,
}

/// The abstract state of a transcript.
pub struct TranscriptState {
    pub absorbed: Seq<u8>,
    pub squeezed: nat,
}

impl View for HashWrapper {
    type V = TranscriptState;

    closed spec fn view(&self) -> TranscriptState {
        TranscriptState { absorbed: self.absorbed@, squeezed: self.squeezed as nat }
    }
}

/// The bytes a ring element is absorbed as: each slot's two coordinates,
/// eight little-endian bytes each.
pub open spec fn element_bytes(e: Seq<(int, int)>, n: nat) -> Seq<u8>
    decreases n,
{
    if n == 0 {
        Seq::empty()
    } else {
        element_bytes(e, (n - 1) as nat) + le_bytes(e[n - 1].0 as nat) + le_bytes(e[n - 1].1 as nat)
    }
}

/// The bytes a slice of extension elements is absorbed as: each element's
/// two coordinates, eight little-endian bytes each.
pub open spec fn qe_slice_bytes(s: Seq<(int, int)>) -> Seq<u8>
    decreases s.len(),
{
    if s.len() == 0 {
        Seq::empty()
    } else {
        qe_slice_bytes(s.drop_last()) + le_bytes(s.last().0 as nat) + le_bytes(s.last().1 as nat)
    }
}

/// The challenge drawn from the state `(absorbed, squeezed)`: two field
/// elements read from the stream of the absorbed bytes followed by the
/// counter.
pub open spec fn challenge_at(absorbed: Seq<u8>, squeezed: nat) -> (int, int) {
    let bytes = blake3_xof_spec(absorbed + le_bytes(squeezed), 16);
    (field_at(bytes, 0), field_at(bytes, 8))
}

/// The ring element drawn from the state `(absorbed, squeezed)`: one
/// extension challenge per slot, drawn in turn.
pub open spec fn ring_challenge(absorbed: Seq<u8>, squeezed: nat) -> Seq<(int, int)> {
    Seq::new(HALF_DEGREE as nat, |j: int| challenge_at(absorbed, squeezed + j as nat))
}

impl HashWrapper {
    /// An empty transcript.
    pub fn new() -> (r: HashWrapper)
        ensures
            r@.absorbed == Seq::<u8>::empty(),
            r@.squeezed == 0,
    {
        HashWrapper { absorbed: Vec::new(), squeezed: 0 }
    }

    /// Absorbs a ring element; the challenge counter restarts.
    pub fn update_with_ring_element(&mut self, e: &RingElement)
        requires
            e.wf(),
        ensures
            final(self)@.absorbed == old(self)@.absorbed + element_bytes(e@, HALF_DEGREE as nat),
            final(self)@.squeezed == 0,
    {
        let mut j: usize = 0;
        while j < HALF_DEGREE
            invariant
                j <= HALF_DEGREE,
                e.wf(),
                self.absorbed@ == old(self).absorbed@ + element_bytes(e@, j as nat),
            decreases HALF_DEGREE - j,
        {
            let v = e.slots[j];
            push_le_bytes(&mut self.absorbed, v.coeffs[0]);
            push_le_bytes(&mut self.absorbed, v.coeffs[1]);
            proof {
                assert(e@[j as int] == v@);
            }
            j = j + 1;
        }
        self.squeezed = 0;
    }

    /// Absorbs a slice of extension elements; the challenge counter restarts.
    pub fn update_with_quadratic_extension_slice(&mut self, s: &[QuadraticExtension])
        requires
            forall|i: int| 0 <= i < s@.len() ==> #[trigger] s@[i].wf(),
        ensures
            final(self)@.absorbed == old(self)@.absorbed + qe_slice_bytes(
                s@.map_values(|e: QuadraticExtension| e@),
            ),
            final(self)@.squeezed == 0,
    {
        let ghost view = s@.map_values(|e: QuadraticExtension| e@);
        let mut j: usize = 0;
        while j < s.len()
            invariant
                j <= s@.len(),
                view == s@.map_values(|e: QuadraticExtension| e@),
                self.absorbed@ == old(self).absorbed@ + qe_slice_bytes(view.take(j as int)),
            decreases s@.len() - j,
        {
            let v = s[j];
            push_le_bytes(&mut self.absorbed, v.coeffs[0]);
            push_le_bytes(&mut self.absorbed, v.coeffs[1]);
            proof {
                assert(view.take(j + 1).drop_last() =~= view.take(j as int));
                assert(view.take(j + 1).last() == v@);
            }
            j = j + 1;
        }
        proof {
            assert(view.take(s@.len() as int) =~= view);
        }
        self.squeezed = 0;
    }

    /// Draws the next ring element, one extension challenge per slot.
    pub fn sample_ring_element_into(&mut self, out: &mut RingElement)
        requires
            old(self)@.squeezed + HALF_DEGREE < u64::MAX,
        ensures
            final(out).wf(),
            final(out)@ == ring_challenge(old(self)@.absorbed, old(self)@.squeezed),
            final(self)@.absorbed == old(self)@.absorbed,
            final(self)@.squeezed == old(self)@.squeezed + HALF_DEGREE,
    {
        let mut slots: Vec<QuadraticExtension> = Vec::with_capacity(HALF_DEGREE);
        let mut j: usize = 0;
        while j < HALF_DEGREE
            invariant
                j <= HALF_DEGREE,
                old(self)@.squeezed + HALF_DEGREE < u64::MAX,
                self@.absorbed == old(self)@.absorbed,
                self@.squeezed == old(self)@.squeezed + j,
                slots@.len() == j,
                forall|k: int|
                    0 <= k < j ==> (#[trigger] slots@[k]).wf() && slots@[k]@ == challenge_at(
                        old(self)@.absorbed,
                        old(self)@.squeezed + k as nat,
                    ),
            decreases HALF_DEGREE - j,
        {
            let mut f = QuadraticExtension { coeffs: [0, 0] };
            self.sample_field_element_into(&mut f);
            slots.push(f);
            j = j + 1;
        }
        let r = RingElement { slots };
        proof {
            assert(r@ =~= ring_challenge(old(self)@.absorbed, old(self)@.squeezed));
            assert forall|k: int| 0 <= k < r@.len() implies #[trigger] preduced(r@[k]) by {
                assert(r.slots@[k].wf());
            }
        }
        *out = r;
    }

    /// Fills `out` with successive ring challenges, entry `k` drawn `k`-th.
    pub fn sample_ring_element_vec_into(&mut self, out: &mut Vec<RingElement>)
        requires
            old(self)@.squeezed + HALF_DEGREE * (old(out)@.len() + 1) < u64::MAX,
        ensures
            final(out)@.len() == old(out)@.len(),
            forall|k: int|
                0 <= k < final(out)@.len() ==> (#[trigger] final(out)@[k]).wf() && final(out)@[k]@
                    == ring_challenge(old(self)@.absorbed, (old(self)@.squeezed + HALF_DEGREE * k) as nat),
            final(self)@.absorbed == old(self)@.absorbed,
            final(self)@.squeezed == old(self)@.squeezed + HALF_DEGREE * old(out)@.len(),
    {
        let n = out.len();
        let mut k: usize = 0;
        while k < n
            invariant
                k <= n,
                n == out@.len(),
                n == old(out)@.len(),
                old(self)@.squeezed + HALF_DEGREE * (n + 1) < u64::MAX,
                self@.absorbed == old(self)@.absorbed,
                self@.squeezed == old(self)@.squeezed + HALF_DEGREE * k,
                forall|t: int|
                    0 <= t < k ==> (#[trigger] out@[t]).wf() && out@[t]@ == ring_challenge(
                        old(self)@.absorbed,
                        (old(self)@.squeezed + HALF_DEGREE * t) as nat,
                    ),
            decreases n - k,
        {
            proof {
                assert(HALF_DEGREE * k + HALF_DEGREE <= HALF_DEGREE * (n + 1)) by (nonlinear_arith)
                    requires
                        k < n,
                ;
            }
            let mut e = RingElement { slots: Vec::new() };
            self.sample_ring_element_into(&mut e);
            out.set(k, e);
            proof {
                assert(HALF_DEGREE * (k + 1) == HALF_DEGREE * k + HALF_DEGREE) by (nonlinear_arith);
            }
            k = k + 1;
        }
    }

    /// Draws the next extension-field challenge.
    pub fn sample_field_element_into(&mut self, out: &mut QuadraticExtension)
        requires
            old(self)@.squeezed < u64::MAX,
        ensures
            final(out).wf(),
            final(out)@ == challenge_at(old(self)@.absorbed, old(self)@.squeezed),
            final(self)@.absorbed == old(self)@.absorbed,
            final(self)@.squeezed == old(self)@.squeezed + 1,
    {
        let mut input = self.absorbed.clone();
        push_le_bytes(&mut input, self.squeezed);
        let bytes = blake3_xof(input.as_slice(), 16);
        assert(bytes@ =~= blake3_xof_spec(input@, 16));
        let c0 = read_field(&bytes, 0);
        let c1 = read_field(&bytes, 8);
        *out = QuadraticExtension { coeffs: [c0, c1] };
        self.squeezed = self.squeezed + 1;
    }
}

} // verus!
