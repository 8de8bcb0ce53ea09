//! Round configurations of the protocol chain.
use vstd::prelude::*;
use vstd::arithmetic::power2::*;
use crate::common::bits::{ilog2, is_pow2, lemma_pow2_log2, log2, pow2_usize};
use crate::common::matrix::{vec_view, vec_wf, HorizontallyAlignedMatrix, VerticallyAlignedMatrix};
use crate::common::ring_arithmetic::RingElement;
use crate::protocol::commitment::Prefix;

verus! {

/// The dimensions every round configuration has.
pub trait ConfigBase {
    fn witness_height(&self) -> usize;

    fn witness_width(&self) -> usize;

    fn projection_ratio(&self) -> usize;

    fn projection_height(&self) -> usize;

    fn basic_commitment_rank(&self) -> usize;
}

/// The configuration of the last, simple round: its witness is sent in the
/// clear after folding.
#[derive(Clone, Copy, Debug, PartialEq, Eq)]
pub struct SimpleConfig {
    pub witness_height: usize,
    pub witness_width: usize,
    pub projection_ratio: usize,
    pub projection_height: usize,
    pub projection_nof_batches: usize,
    pub basic_commitment_rank: usize,
}

impl ConfigBase for SimpleConfig {
    fn witness_height(&self) -> (r: usize)
        ensures
            r == self.witness_height,
    {
        self.witness_height
    }

    fn witness_width(&self) -> (r: usize)
        ensures
            r == self.witness_width,
    {
        self.witness_width
    }

    fn projection_ratio(&self) -> (r: usize)
        ensures
            r == self.projection_ratio,
    {
        self.projection_ratio
    }

    fn projection_height(&self) -> (r: usize)
        ensures
            r == self.projection_height,
    {
        self.projection_height
    }

    fn basic_commitment_rank(&self) -> (r: usize)
        ensures
            r == self.basic_commitment_rank,
    {
        self.basic_commitment_rank
    }
}

/// The proof of the simple round.
pub struct SimpleRoundProof {
    pub folded_witness: VerticallyAlignedMatrix<RingElement>,
    pub projection_image_ct: VerticallyAlignedMatrix<RingElement>,
    pub batched_projection_image: HorizontallyAlignedMatrix<RingElement>,
    pub opening_rhs: HorizontallyAlignedMatrix<RingElement>,
}

/// The first index of the block under `prefix` in a vector of `len` entries
/// (a power of two).
pub open spec fn prefix_start(prefix: Prefix, len: nat) -> int {
    prefix.prefix * pow2((log2(len) - prefix.length) as nat)
}

/// The number of entries of the block under `prefix` in a vector of `len`
/// entries.
pub open spec fn prefix_len(prefix: Prefix, len: nat) -> int {
    pow2((log2(len) - prefix.length) as nat) as int
}

/// Copies `src` into `dest` from the first index of the block under `prefix`;
/// the other entries of `dest` are kept.
pub fn paste_by_prefix(dest: &mut Vec<RingElement>, src: &Vec<RingElement>, prefix: &Prefix)
    requires
        is_pow2(old(dest)@.len() as nat),
        prefix.length <= log2(old(dest)@.len() as nat),
        prefix_start(*prefix, old(dest)@.len() as nat) + src@.len() <= old(dest)@.len(),
        vec_wf(src@),
    ensures
        final(dest)@.len() == old(dest)@.len(),
        forall|i: int|
            0 <= i < old(dest)@.len() ==> #[trigger] final(dest)@[i]@ == if prefix_start(
                *prefix,
                old(dest)@.len() as nat,
            ) <= i < prefix_start(*prefix, old(dest)@.len() as nat) + src@.len() {
                src@[i - prefix_start(*prefix, old(dest)@.len() as nat)]@
            } else {
                old(dest)@[i]@
            },
        forall|i: int|
            0 <= i < old(dest)@.len() && !(prefix_start(*prefix, old(dest)@.len() as nat) <= i
                < prefix_start(*prefix, old(dest)@.len() as nat) + src@.len()) ==> #[trigger] final(dest)@[i]
                == old(dest)@[i],
        vec_wf(old(dest)@) ==> vec_wf(final(dest)@),
{
    let n = dest.len();
    proof {
        lemma_pow2_log2(n as nat);
        crate::common::bits::lemma_log2_bound(n as nat);
    }
    let shift = ilog2(n) - prefix.length;
    proof {
        lemma_pow2_pos(shift as nat);
        if (shift as nat) < log2(n as nat) {
            lemma_pow2_strictly_increases(shift as nat, log2(n as nat));
        }
        assert(pow2(shift as nat) <= n);
        if prefix.prefix > 0 {
            vstd::arithmetic::mul::lemma_mul_increases(prefix.prefix as int, pow2(shift as nat) as int);
        }
    }
    let block = pow2_usize(shift);
    let start = prefix.prefix * block;
    assert(start == prefix_start(*prefix, n as nat));
    let ghost old_dest = dest@;
    let mut i: usize = 0;
    while i < src.len()
        invariant
            i <= src@.len(),
            start + src@.len() <= dest@.len(),
            dest@.len() == old_dest.len(),
            dest@.len() == n,
            vec_wf(src@),
            forall|j: int|
                0 <= j < dest@.len() ==> #[trigger] dest@[j]@ == if start <= j < start + i {
                    src@[j - start]@
                } else {
                    old_dest[j]@
                },
            forall|j: int|
                0 <= j < dest@.len() && !(start <= j < start + i) ==> #[trigger] dest@[j]
                    == old_dest[j],
            forall|j: int| 0 <= j < dest@.len() && start <= j < start + i ==> (#[trigger] dest@[j]).wf(),
        decreases src@.len() - i,
    {
        let v = src[i].duplicate();
        dest.set(start + i, v);
        i = i + 1;
    }
    proof {
        assert forall|j: int| vec_wf(old_dest) && 0 <= j < dest@.len() implies (#[trigger] dest@[j]).wf() by {
            if !(start <= j < start + src@.len()) {
                assert(dest@[j] == old_dest[j]);
            }
        }
    }
}

/// The block under `prefix` of `src`.
pub fn slice_by_prefix(src: &Vec<RingElement>, prefix: &Prefix) -> (r: Vec<RingElement>)
    requires
        is_pow2(src@.len() as nat),
        prefix.length <= log2(src@.len() as nat),
        prefix_start(*prefix, src@.len() as nat) + prefix_len(*prefix, src@.len() as nat)
            <= src@.len(),
        vec_wf(src@),
    ensures
        vec_wf(r@),
        vec_view(r@) == vec_view(src@).subrange(
            prefix_start(*prefix, src@.len() as nat),
            prefix_start(*prefix, src@.len() as nat) + prefix_len(*prefix, src@.len() as nat),
        ),
{
    let n = src.len();
    proof {
        lemma_pow2_log2(n as nat);
        crate::common::bits::lemma_log2_bound(n as nat);
    }
    let shift = ilog2(n) - prefix.length;
    proof {
        lemma_pow2_pos(shift as nat);
        if (shift as nat) < log2(n as nat) {
            lemma_pow2_strictly_increases(shift as nat, log2(n as nat));
        }
        assert(pow2(shift as nat) <= n);
        if prefix.prefix > 0 {
            vstd::arithmetic::mul::lemma_mul_increases(prefix.prefix as int, pow2(shift as nat) as int);
        }
    }
    let length = pow2_usize(shift);
    let start = prefix.prefix * length;
    assert(start == prefix_start(*prefix, n as nat));
    let mut out: Vec<RingElement> = Vec::with_capacity(length);
    let mut i: usize = 0;
    while i < length
        invariant
            i <= length,
            start + length <= src@.len(),
            src@.len() == n,
            vec_wf(src@),
            out@.len() == i,
            vec_wf(out@),
            forall|j: int| 0 <= j < i ==> #[trigger] out@[j]@ == src@[start + j]@,
        decreases length - i,
    {
        out.push(src[start + i].duplicate());
        i = i + 1;
    }
    proof {
        assert(vec_view(out@) =~= vec_view(src@).subrange(start as int, start + length));
    }
    out
}

/// Reading back the block a paste wrote gives the pasted entries: after
/// `paste_by_prefix(dest, src, prefix)` with `src` filling the whole block,
/// `slice_by_prefix(dest, prefix)` reads `src`.
pub proof fn lemma_slice_reads_paste(
    old_dest: Seq<RingElement>,
    new_dest: Seq<RingElement>,
    src: Seq<RingElement>,
    prefix: Prefix,
)
    requires
        is_pow2(old_dest.len() as nat),
        prefix.length <= log2(old_dest.len() as nat),
        src.len() == prefix_len(prefix, old_dest.len() as nat),
        prefix_start(prefix, old_dest.len() as nat) + src.len() <= old_dest.len(),
        new_dest.len() == old_dest.len(),
        forall|i: int|
            0 <= i < old_dest.len() ==> #[trigger] new_dest[i]@ == if prefix_start(
                prefix,
                old_dest.len() as nat,
            ) <= i < prefix_start(prefix, old_dest.len() as nat) + src.len() {
                src[i - prefix_start(prefix, old_dest.len() as nat)]@
            } else {
                old_dest[i]@
            },
    ensures
        vec_view(new_dest).subrange(
            prefix_start(prefix, new_dest.len() as nat),
            prefix_start(prefix, new_dest.len() as nat) + prefix_len(prefix, new_dest.len() as nat),
        ) == vec_view(src),
{
    let start = prefix_start(prefix, old_dest.len() as nat);
    lemma_pow2_pos((log2(old_dest.len() as nat) - prefix.length) as nat);
    if prefix.prefix > 0 {
        vstd::arithmetic::mul::lemma_mul_increases(
            prefix.prefix as int,
            pow2((log2(old_dest.len() as nat) - prefix.length) as nat) as int,
        );
    }
    assert forall|j: int| 0 <= j < src.len() implies #[trigger] vec_view(new_dest).subrange(
        start,
        start + src.len(),
    )[j] == vec_view(src)[j] by {
        assert(new_dest[start + j]@ == src[j]@);
    }
    assert(vec_view(new_dest).subrange(start, start + src.len()) =~= vec_view(src));
}

} // verus!
