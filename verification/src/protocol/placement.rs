//! Where a committed component lives in the next round's witness: a component
//! of any size is cut into dyadic blocks, one per set bit of its size, largest
//! first, and each block sits under its own binary prefix.
use vstd::prelude::*;
use vstd::arithmetic::div_mod::*;
use vstd::arithmetic::mul::*;
use vstd::arithmetic::power2::*;
use crate::common::bits::{ilog2, is_pow2, lemma_log2_mono, lemma_log2_pow2, lemma_pow2_log2, log2};
use crate::common::matrix::VerticallyAlignedMatrix;
use crate::common::ring_arithmetic::RingElement;
use crate::protocol::commitment::{is_next_pow2, next_power_of_two, Prefix};
use crate::protocol::project_coarse::Signed16RingElement;

verus! {

/// The dyadic blocks of `size`, largest first: the powers of two of its set
/// bits.
pub open spec fn blocks_of(size: nat) -> Seq<nat>
    decreases size,
{
    if size == 0 {
        Seq::empty()
    } else {
        let high = blocks_of(size / 2);
        Seq::new(high.len(), |i: int| 2 * high[i]) + if size % 2 == 1 {
            seq![1nat]
        } else {
            Seq::empty()
        }
    }
}

/// The sum of a sequence of naturals.
pub open spec fn sum_nat(s: Seq<nat>) -> nat
    decreases s.len(),
{
    if s.len() == 0 {
        0
    } else {
        sum_nat(s.drop_last()) + s.last()
    }
}

proof fn lemma_sum_double(s: Seq<nat>)
    ensures
        sum_nat(Seq::new(s.len(), |i: int| 2 * s[i])) == 2 * sum_nat(s),
    decreases s.len(),
{
    let d = Seq::new(s.len(), |i: int| 2 * s[i]);
    if s.len() > 0 {
        lemma_sum_double(s.drop_last());
        assert(d.drop_last() =~= Seq::new(s.drop_last().len(), |i: int| 2 * s.drop_last()[i]));
    }
}

proof fn lemma_sum_push(s: Seq<nat>, x: nat)
    ensures
        sum_nat(s.push(x)) == sum_nat(s) + x,
{
    assert(s.push(x).drop_last() =~= s);
}

/// Every entry is at most the sum.
proof fn lemma_sum_bounds(s: Seq<nat>)
    ensures
        forall|i: int| 0 <= i < s.len() ==> #[trigger] s[i] <= sum_nat(s),
        forall|k: int| 0 <= k <= s.len() ==> #[trigger] sum_nat(s.take(k)) <= sum_nat(s),
    decreases s.len(),
{
    if s.len() > 0 {
        lemma_sum_bounds(s.drop_last());
        assert forall|i: int| 0 <= i < s.len() implies #[trigger] s[i] <= sum_nat(s) by {
            if i < s.len() - 1 {
                assert(s.drop_last()[i] == s[i]);
            }
        }
        assert forall|k: int| 0 <= k <= s.len() implies #[trigger] sum_nat(s.take(k)) <= sum_nat(s) by {
            if k < s.len() {
                assert(s.take(k) =~= s.drop_last().take(k));
                assert(sum_nat(s.drop_last().take(k)) <= sum_nat(s.drop_last()));
            } else {
                assert(s.take(k) =~= s);
            }
        }
    }
}

/// The blocks of `size` are powers of two in strictly decreasing order that
/// add up to `size`; a power-of-two size is a single block.
pub proof fn lemma_blocks_of(size: nat)
    ensures
        sum_nat(blocks_of(size)) == size,
        forall|i: int| 0 <= i < blocks_of(size).len() ==> is_pow2(#[trigger] blocks_of(size)[i]),
        forall|i: int, j: int|
            0 <= i < j < blocks_of(size).len() ==> blocks_of(size)[i] > blocks_of(size)[j],
        is_pow2(size) ==> blocks_of(size) == seq![size],
    decreases size,
{
    if size > 0 {
        let h = blocks_of(size / 2);
        lemma_blocks_of(size / 2);
        let d = Seq::new(h.len(), |i: int| 2 * h[i]);
        lemma_sum_double(h);
        let b = blocks_of(size);
        assert(b == d + if size % 2 == 1 {
            seq![1nat]
        } else {
            Seq::empty()
        });
        if size % 2 == 1 {
            assert(d + seq![1nat] == d.push(1));
            lemma_sum_push(d, 1);
        } else {
            assert(d + Seq::<nat>::empty() =~= d);
        }
        assert forall|i: int| 0 <= i < b.len() implies is_pow2(#[trigger] b[i]) by {
            if i < d.len() {
                assert(is_pow2(h[i]));
                assert((2 * h[i]) % 2 == 0 && (2 * h[i]) / 2 == h[i]);
            }
        }
        assert forall|i: int, j: int| 0 <= i < j < b.len() implies b[i] > b[j] by {
            if j < d.len() {
                assert(h[i] > h[j]);
            } else {
                assert(is_pow2(h[i]));
                assert(h[i] >= 1);
            }
        }
        if is_pow2(size) {
            if size == 1 {
                assert(h =~= Seq::<nat>::empty());
                assert(b =~= seq![size]);
            } else {
                assert(size % 2 == 0);
                assert(is_pow2(size / 2));
                assert(h == seq![size / 2]);
                assert(b =~= seq![size]);
            }
        }
    }
}

/// The binary decomposition of `size`, largest first.
pub fn block_sizes(size: usize) -> (r: Vec<usize>)
    ensures
        r@.len() == blocks_of(size as nat).len(),
        forall|i: int| 0 <= i < r@.len() ==> #[trigger] r@[i] as nat == blocks_of(size as nat)[i],
    decreases size,
{
    if size == 0 {
        return Vec::new();
    }
    let mut r = block_sizes(size / 2);
    let ghost h = blocks_of((size / 2) as nat);
    proof {
        lemma_blocks_of((size / 2) as nat);
        lemma_sum_bounds(h);
    }
    let mut i: usize = 0;
    while i < r.len()
        invariant
            i <= r@.len(),
            r@.len() == h.len(),
            forall|j: int| 0 <= j < h.len() ==> #[trigger] h[j] <= size / 2,
            forall|j: int| 0 <= j < r@.len() ==> #[trigger] r@[j] as nat == if j < i {
                2 * h[j]
            } else {
                h[j]
            },
        decreases r@.len() - i,
    {
        assert(h[i as int] <= size / 2);
        let v = 2 * r[i];
        r.set(i, v);
        i = i + 1;
    }
    if size % 2 == 1 {
        r.push(1);
    }
    proof {
        let d = Seq::new(h.len(), |j: int| 2 * h[j]);
        if size % 2 == 1 {
            assert(blocks_of(size as nat) == d + seq![1nat]);
        } else {
            assert(blocks_of(size as nat) == d + Seq::<nat>::empty());
        }
    }
    r
}

/// The dyadic blocks a component of `size` entries is cut into, largest
/// first, and the prefix each block sits under in the witness. Block `k`
/// covers the component's own indices `[offset_k, offset_k + size_k)`; the
/// offsets are sums of strictly larger powers of two, so every block is
/// aligned to its own size.
#[derive(Clone, Debug, PartialEq, Eq)]
pub struct Placement {
    pub size: usize,
    pub blocks: Vec<Prefix>,
}

/// The component-local offset of block `k`: the sizes of the blocks before it.
pub open spec fn block_offset(size: nat, k: int) -> nat {
    sum_nat(blocks_of(size).take(k))
}

/// The number of blocks that carry a prefix.
pub open spec fn placed_blocks(p: Placement) -> int {
    if blocks_of(p.size as nat).len() <= p.blocks@.len() {
        blocks_of(p.size as nat).len() as int
    } else {
        p.blocks@.len() as int
    }
}

/// The first placed block that ends after `start`, or the number of placed
/// blocks when none does.
pub open spec fn block_at(p: Placement, start: nat, k: int) -> int
    decreases placed_blocks(p) - k,
{
    if k >= placed_blocks(p) || k < 0 {
        placed_blocks(p)
    } else if start < block_offset(p.size as nat, k) + blocks_of(p.size as nat)[k] {
        k
    } else {
        block_at(p, start, k + 1)
    }
}

impl Placement {
    /// A component that is one dyadic block.
    pub fn single(size: usize, prefix: Prefix) -> (r: Placement)
        requires
            is_pow2(size as nat),
        ensures
            r.size == size,
            r.blocks@ == seq![prefix],
    {
        let mut blocks = Vec::new();
        blocks.push(prefix);
        Placement { size, blocks }
    }

    /// The sizes of the component's blocks, largest first.
    pub fn block_sizes(&self) -> (r: Vec<usize>)
        ensures
            r@.len() == blocks_of(self.size as nat).len(),
            forall|i: int| 0 <= i < r@.len() ==> #[trigger] r@[i] as nat == blocks_of(self.size as nat)[i],
    {
        block_sizes(self.size)
    }

    /// Each placed block as `(offset, size, prefix)`, with the
    /// component-local offset it starts at.
    pub fn blocks_with_offsets(&self) -> (r: Vec<(usize, usize, Prefix)>)
        ensures
            r@.len() == placed_blocks(*self),
            forall|i: int|
                0 <= i < r@.len() ==> #[trigger] r@[i] == (
                    block_offset(self.size as nat, i) as usize,
                    blocks_of(self.size as nat)[i] as usize,
                    self.blocks@[i],
                ),
    {
        let sizes = self.block_sizes();
        let ghost bs = blocks_of(self.size as nat);
        proof {
            lemma_blocks_of(self.size as nat);
            lemma_sum_bounds(bs);
        }
        let n = if sizes.len() <= self.blocks.len() {
            sizes.len()
        } else {
            self.blocks.len()
        };
        let mut out: Vec<(usize, usize, Prefix)> = Vec::with_capacity(n);
        let mut offset: usize = 0;
        let mut i: usize = 0;
        while i < n
            invariant
                i <= n,
                n == placed_blocks(*self),
                n <= sizes@.len(),
                n <= self.blocks@.len(),
                sizes@.len() == bs.len(),
                bs == blocks_of(self.size as nat),
                sum_nat(bs) == self.size,
                forall|k: int| 0 <= k <= bs.len() ==> #[trigger] sum_nat(bs.take(k)) <= sum_nat(bs),
                forall|k: int| 0 <= k < sizes@.len() ==> #[trigger] sizes@[k] as nat == bs[k],
                offset as nat == sum_nat(bs.take(i as int)),
                out@.len() == i,
                forall|k: int|
                    0 <= k < i ==> #[trigger] out@[k] == (
                        block_offset(self.size as nat, k) as usize,
                        bs[k] as usize,
                        self.blocks@[k],
                    ),
            decreases n - i,
        {
            out.push((offset, sizes[i], self.blocks[i]));
            proof {
                assert(bs.take(i + 1).drop_last() =~= bs.take(i as int));
                assert(sum_nat(bs.take(i + 1)) <= sum_nat(bs));
            }
            offset = offset + sizes[i];
            i = i + 1;
        }
        out
    }
}

/// The entries in each of `count` equal slices of the component.
pub open spec fn slice_len(p: Placement, count: nat) -> nat {
    (p.size as nat) / count
}

/// The block holding slice `index` of `count`, its offset and size.
pub open spec fn slice_block(p: Placement, index: nat, count: nat) -> int {
    block_at(p, index * slice_len(p, count), 0)
}

/// Slice `index` of `count` is a power of two long, lies inside one placed
/// block, and its prefix fits a machine word.
pub open spec fn slice_ok(p: Placement, index: nat, count: nat) -> bool {
    let len = slice_len(p, count);
    let start = index * len;
    let k = slice_block(p, index, count);
    let off = block_offset(p.size as nat, k);
    let size = blocks_of(p.size as nat)[k];
    &&& count > 0
    &&& (p.size as nat) % count == 0
    &&& is_pow2(len)
    &&& start <= usize::MAX
    &&& k < placed_blocks(p)
    &&& start + len <= off + size
    &&& p.blocks@[k].prefix * (size / len) + (start - off) / (len as int) <= usize::MAX
    &&& p.blocks@[k].length + log2(size / len) <= usize::MAX
}

/// The prefix of slice `index` of `count`: inside its block, the block's
/// prefix followed by the slice's position among the block's `size / len`
/// equal parts.
pub open spec fn slice_prefix(p: Placement, index: nat, count: nat) -> Prefix {
    let len = slice_len(p, count);
    let start = index * len;
    let k = slice_block(p, index, count);
    let off = block_offset(p.size as nat, k);
    let size = blocks_of(p.size as nat)[k];
    let parts = size / len;
    Prefix {
        prefix: (p.blocks@[k].prefix * parts + (start - off) / (len as int)) as usize,
        length: (p.blocks@[k].length + log2(parts)) as usize,
    }
}

/// Stepping over blocks that end at or before `start` does not change the
/// block found.
proof fn lemma_block_at_step(p: Placement, start: nat, k: int)
    requires
        0 <= k < placed_blocks(p),
        start >= block_offset(p.size as nat, k) + blocks_of(p.size as nat)[k],
    ensures
        block_at(p, start, k) == block_at(p, start, k + 1),
{
}

impl Placement {
    /// The prefix addressing the `index`-th of `count` equal dyadic slices of
    /// the component. The slice must be a power of two long and fall inside a
    /// single block, which it does whenever its length divides every block.
    pub fn slice(&self, index: usize, count: usize) -> (r: Prefix)
        requires
            slice_ok(*self, index as nat, count as nat),
        ensures
            r == slice_prefix(*self, index as nat, count as nat),
    {
        let len = self.size / count;
        let start = index * len;
        let bwo = self.blocks_with_offsets();
        let ghost bs = blocks_of(self.size as nat);
        let ghost k = slice_block(*self, index as nat, count as nat);
        proof {
            lemma_blocks_of(self.size as nat);
            lemma_sum_bounds(bs);
        }
        let mut i: usize = 0;
        while i < bwo.len()
            invariant
                i <= bwo@.len(),
                bwo@.len() == placed_blocks(*self),
                placed_blocks(*self) <= bs.len(),
                bs == blocks_of(self.size as nat),
                sum_nat(bs) == self.size,
                forall|j: int| 0 <= j <= bs.len() ==> #[trigger] sum_nat(bs.take(j)) <= sum_nat(bs),
                forall|j: int|
                    0 <= j < bwo@.len() ==> #[trigger] bwo@[j] == (
                        block_offset(self.size as nat, j) as usize,
                        bs[j] as usize,
                        self.blocks@[j],
                    ),
                len == slice_len(*self, count as nat),
                start == index * len,
                k == slice_block(*self, index as nat, count as nat),
                block_at(*self, start as nat, i as int) == k,
                i == 0 || start >= block_offset(self.size as nat, i as int),
                slice_ok(*self, index as nat, count as nat),
            decreases bwo@.len() - i,
        {
            let (offset, size, prefix) = bwo[i];
            proof {
                assert(bs.take(i + 1).drop_last() =~= bs.take(i as int));
                assert(sum_nat(bs.take(i + 1)) <= sum_nat(bs));
                assert(block_offset(self.size as nat, i as int + 1) == offset + size);
            }
            if start < offset + size {
                proof {
                    assert(block_at(*self, start as nat, i as int) == i);
                    assert(block_offset(self.size as nat, 0) == 0) by {
                        assert(bs.take(0) =~= Seq::<nat>::empty());
                    }
                    assert(offset <= start);
                    crate::common::bits::lemma_pow2_log2(len as nat);
                    assert(len <= size);
                    assert(size as int / len as int >= 1) by (nonlinear_arith)
                        requires
                            len as int <= size as int,
                            len > 0,
                    ;
                }
                let parts = size / len;
                return Prefix {
                    prefix: prefix.prefix * parts + (start - offset) / len,
                    length: prefix.length + ilog2(parts),
                };
            }
            proof {
                lemma_block_at_step(*self, start as nat, i as int);
            }
            i = i + 1;
        }
        proof {
            assert(block_at(*self, start as nat, i as int) == placed_blocks(*self));
        }
        Prefix { prefix: 0, length: 0 }
    }
}

/// `n` rounded up to a power of two (one for zero), as `usize::next_power_of_two`.
pub open spec fn padded_count(n: nat, p: nat) -> bool {
    if n == 0 {
        p == 1
    } else {
        is_next_pow2(p, n)
    }
}

fn round_up_pow2(n: usize) -> (r: usize)
    requires
        n <= usize::MAX / 2 + 1,
    ensures
        padded_count(n as nat, r as nat),
{
    if n == 0 {
        1
    } else {
        next_power_of_two(n)
    }
}

/// One recursion level: a single commitment over this level's input, whose
/// `rank` output elements are the next level's input. `placements` says where
/// the level's decomposed input lives in the next round's witness, one
/// placement per row. The input is committed over a power-of-two number of
/// rows and digit planes; the padding is zero and never placed.
#[derive(Debug)]
pub struct RecursionConfig {
    pub decomposition_base_log: usize,
    pub decomposition_chunks: usize,
    pub rank: usize,
    /// One placement per row segment of this level's input, in row order.
    pub placements: Vec<Placement>,
    pub next: Option<Box<RecursionConfig>>,
}

impl RecursionConfig {
    /// The last level of the chain.
    pub open spec fn innermost(self) -> RecursionConfig
        decreases self,
    {
        match self.next {
            Some(next) => next.innermost(),
            None => self,
        }
    }

    pub fn most_inner_config(&self) -> (r: &RecursionConfig)
        ensures
            *r == self.innermost(),
        decreases self,
    {
        match &self.next {
            Some(next_config) => next_config.most_inner_config(),
            None => self,
        }
    }

    /// The placement of a level whose input is a single row (a level with
    /// one placement per row of several is refused).
    pub fn placement(&self) -> (r: &Placement)
        requires
            self.placements@.len() == 1,
        ensures
            *r == self.placements@[0],
    {
        &self.placements[0]
    }

    /// How many row segments the padded input is cut into: the real rows
    /// plus the zero padding that is committed but never placed.
    pub fn segments(&self) -> (r: usize)
        requires
            self.placements@.len() <= usize::MAX / 2 + 1,
        ensures
            padded_count(self.placements@.len(), r as nat),
    {
        round_up_pow2(self.placements.len())
    }

    /// How many digit planes the padded row is cut into; the planes past
    /// `decomposition_chunks` are zero, committed but never placed.
    pub fn padded_chunks(&self) -> (r: usize)
        requires
            self.decomposition_chunks <= usize::MAX / 2 + 1,
        ensures
            padded_count(self.decomposition_chunks as nat, r as nat),
    {
        round_up_pow2(self.decomposition_chunks)
    }

    /// The length of one row of this level's (undecomposed) input; every row
    /// component of the level has the same size.
    pub fn row_len(&self) -> (r: usize)
        requires
            self.placements@.len() >= 1,
            self.decomposition_chunks > 0,
            forall|i: int|
                0 <= i < self.placements@.len() ==> #[trigger] self.placements@[i].size
                    == self.placements@[0].size,
        ensures
            r == self.placements@[0].size / self.decomposition_chunks,
    {
        self.placements[0].size / self.decomposition_chunks
    }

    /// The length of the padded vector this level commits to.
    pub fn committed_len(&self) -> (r: usize)
        requires
            self.placements@.len() >= 1,
            self.decomposition_chunks > 0,
            forall|i: int|
                0 <= i < self.placements@.len() ==> #[trigger] self.placements@[i].size
                    == self.placements@[0].size,
            self.placements@.len() <= usize::MAX / 2 + 1,
            self.decomposition_chunks <= usize::MAX / 2 + 1,
            forall|s: nat, c: nat|
                padded_count(self.placements@.len(), s) && padded_count(
                    self.decomposition_chunks as nat,
                    c,
                ) ==> #[trigger] ((self.placements@[0].size / self.decomposition_chunks) as nat * s
                    * c) <= usize::MAX,
        ensures
            exists|s: nat, c: nat|
                padded_count(self.placements@.len(), s) && padded_count(
                    self.decomposition_chunks as nat,
                    c,
                ) && r == (self.placements@[0].size / self.decomposition_chunks) as nat * s * c,
    {
        let rl = self.row_len();
        let s = self.segments();
        let c = self.padded_chunks();
        proof {
            assert(((self.placements@[0].size / self.decomposition_chunks) as nat * (s as nat)
                * (c as nat)) <= usize::MAX);
            crate::common::bits::lemma_pow2_log2(c as nat);
            assert(c >= 1);
            assert((rl as int) * (s as int) <= (rl as int) * (s as int) * (c as int)) by (nonlinear_arith)
                requires
                    c >= 1,
            ;
        }
        rl * s * c
    }
}

/// The committed data of one recursion level and its commitment, followed by
/// the levels that commit to it.
#[derive(Debug)]
pub struct RecursiveCommitmentWithAux {
    pub decomposition_base_log: usize,
    pub decomposition_chunks: usize,
    pub committed_data: Vec<RingElement>,
    pub commitment: Vec<RingElement>,
    pub next: Option<Box<RecursiveCommitmentWithAux>>,
}

impl RecursiveCommitmentWithAux {
    /// The last level of the chain.
    pub open spec fn innermost(self) -> RecursiveCommitmentWithAux
        decreases self,
    {
        match self.next {
            Some(next) => next.innermost(),
            None => self,
        }
    }

    /// The commitment of the last level: what the verifier holds.
    pub fn most_inner_commitment(&self) -> (r: &Vec<RingElement>)
        ensures
            *r == self.innermost().commitment,
        decreases self,
    {
        match &self.next {
            Some(next_config) => next_config.most_inner_commitment(),
            None => &self.commitment,
        }
    }

    pub fn most_inner_commitment_with_aux(&self) -> (r: &RecursiveCommitmentWithAux)
        ensures
            *r == self.innermost(),
        decreases self,
    {
        match &self.next {
            Some(next_config) => next_config.most_inner_commitment_with_aux(),
            None => self,
        }
    }
}

/// A recursive commitment with the witness kept as `i16` digits for the
/// coarse projection, when they have been prepared.
pub struct CommitmentWithAux {
    pub rc_commitment_with_aux: RecursiveCommitmentWithAux,
    pub witness_i16: Option<VerticallyAlignedMatrix<Signed16RingElement>>,
}

impl CommitmentWithAux {
    pub fn from_rc_commitment_with_aux(rc_commitment_with_aux: RecursiveCommitmentWithAux) -> (r:
        CommitmentWithAux)
        ensures
            r.rc_commitment_with_aux == rc_commitment_with_aux,
            r.witness_i16 is None,
    {
        CommitmentWithAux { rc_commitment_with_aux, witness_i16: None }
    }
}

/// A power of two divides every power of two at least as large, and the
/// quotient is a power of two whose logarithm is the difference.
proof fn lemma_pow2_divides(a: nat, b: nat)
    requires
        is_pow2(a),
        is_pow2(b),
        a <= b,
    ensures
        a > 0,
        b % a == 0,
        b == a * (b / a),
        is_pow2(b / a),
        log2(b) == log2(a) + log2(b / a),
{
    let x = log2(a);
    let y = log2(b);
    lemma_pow2_log2(a);
    lemma_pow2_log2(b);
    lemma_log2_mono(a, b);
    lemma_pow2_adds(x, (y - x) as nat);
    assert(b == a * pow2((y - x) as nat));
    lemma_pow2_pos((y - x) as nat);
    lemma_div_multiples_vanish(pow2((y - x) as nat) as int, a as int);
    lemma_mul_is_commutative(a as int, pow2((y - x) as nat) as int);
    lemma_mod_multiples_basic(pow2((y - x) as nat) as int, a as int);
    lemma_log2_pow2((y - x) as nat);
}

/// A sum of multiples of `m` is a multiple of `m`.
proof fn lemma_sum_multiple(s: Seq<nat>, m: nat, k: int)
    requires
        m > 0,
        0 <= k <= s.len(),
        forall|j: int| 0 <= j < k ==> #[trigger] s[j] % m == 0,
    ensures
        sum_nat(s.take(k)) % m == 0,
    decreases k,
{
    if k == 0 {
        assert(s.take(0) =~= Seq::<nat>::empty());
        assert(sum_nat(s.take(0)) == 0);
    } else {
        lemma_sum_multiple(s, m, k - 1);
        assert(s.take(k).drop_last() =~= s.take(k - 1));
        assert(s.take(k).last() == s[k - 1]);
        let x = s[k - 1] as int;
        let rest = sum_nat(s.take(k - 1)) as int;
        assert(x % (m as int) == 0);
        lemma_fundamental_div_mod(x, m as int);
        assert(x == (m as int) * (x / (m as int)));
        lemma_mod_multiples_vanish(x / (m as int), rest, m as int);
        assert(sum_nat(s.take(k)) as int == (m as int) * (x / (m as int)) + rest);
        assert(((m as int) * (x / (m as int)) + rest) % (m as int) == rest % (m as int));
        assert(rest % (m as int) == 0);
        assert((sum_nat(s.take(k)) as int) % (m as int) == 0);
    }
}

proof fn lemma_offset_step(size: nat, j: int)
    requires
        0 <= j < blocks_of(size).len(),
    ensures
        block_offset(size, j + 1) == block_offset(size, j) + blocks_of(size)[j],
{
    let bs = blocks_of(size);
    assert(bs.take(j + 1).drop_last() =~= bs.take(j));
}

/// The block found for `start` begins at or before it.
proof fn lemma_block_at_start(p: Placement, start: nat, j: int)
    requires
        0 <= j <= placed_blocks(p),
        placed_blocks(p) <= blocks_of(p.size as nat).len(),
        j == 0 || start >= block_offset(p.size as nat, j),
    ensures
        j <= block_at(p, start, j) <= placed_blocks(p),
        block_at(p, start, j) < placed_blocks(p) ==> block_offset(
            p.size as nat,
            block_at(p, start, j),
        ) <= start,
    decreases placed_blocks(p) - j,
{
    if j == 0 {
        assert(blocks_of(p.size as nat).take(0) =~= Seq::<nat>::empty());
    }
    if j < placed_blocks(p) && start >= block_offset(p.size as nat, j) + blocks_of(p.size as nat)[j] {
        lemma_offset_step(p.size as nat, j);
        lemma_block_at_start(p, start, j + 1);
    }
}

/// The prefix of a slice addresses exactly the slice's entries. When each
/// placed block's prefix covers, in a witness of `total` variables, a block
/// as large as itself, the slice's prefix covers `len` entries, starting at
/// its block's position in the witness plus the slice's offset in the block.
pub proof fn lemma_slice_addresses(p: Placement, index: nat, count: nat, total: nat)
    requires
        slice_ok(p, index, count),
        forall|k: int|
            0 <= k < placed_blocks(p) ==> p.blocks@[k].length <= total && #[trigger] pow2(
                (total - p.blocks@[k].length) as nat,
            ) == blocks_of(p.size as nat)[k],
    ensures
        ({
            let r = slice_prefix(p, index, count);
            let k = slice_block(p, index, count);
            let len = slice_len(p, count);
            &&& r.length <= total
            &&& pow2((total - r.length) as nat) == len
            &&& r.prefix * len == p.blocks@[k].prefix * blocks_of(p.size as nat)[k] + (index * len
                - block_offset(p.size as nat, k))
        }),
{
    let bs = blocks_of(p.size as nat);
    let len = slice_len(p, count);
    let start = index * len;
    let k = slice_block(p, index, count);
    let off = block_offset(p.size as nat, k);
    let size = bs[k];
    let parts = size / len;
    let r = slice_prefix(p, index, count);
    let b = p.blocks@[k];
    lemma_blocks_of(p.size as nat);
    lemma_block_at_start(p, start, 0);
    assert(off <= start);
    assert(len <= size);
    assert(is_pow2(size));
    lemma_pow2_divides(len, size);
    // the block's extent
    assert(pow2((total - b.length) as nat) == size);
    lemma_log2_pow2((total - b.length) as nat);
    assert(log2(size) == total - b.length);
    // the slice's extent
    lemma_pow2_log2(len);
    assert(r.length == b.length + log2(parts));
    assert((total - r.length) as nat == log2(len));
    // the offset inside the block is a multiple of the slice length
    assert forall|j: int| 0 <= j < k implies #[trigger] bs[j] % len == 0 by {
        assert(bs[j] > bs[k]);
        assert(is_pow2(bs[j]));
        lemma_pow2_divides(len, bs[j]);
    }
    lemma_sum_multiple(bs, len, k);
    lemma_mod_multiples_basic(index as int, len as int);
    lemma_fundamental_div_mod(off as int, len as int);
    lemma_fundamental_div_mod(start as int, len as int);
    let q = (start - off) / (len as int);
    assert((start - off) == len * q) by {
        let qs = start / len;
        let qo = off / len;
        assert(start == len * qs);
        assert(off == len * qo);
        lemma_mul_is_distributive_sub(len as int, qs as int, qo as int);
        lemma_div_multiples_vanish((qs - qo) as int, len as int);
    }
    assert(r.prefix * len == b.prefix * size + (start - off)) by {
        assert(r.prefix == b.prefix * parts + q);
        lemma_mul_is_distributive_add_other_way(len as int, b.prefix * parts, q);
        lemma_mul_is_associative(b.prefix as int, parts as int, len as int);
        lemma_mul_is_commutative(parts as int, len as int);
        lemma_mul_is_commutative(q, len as int);
    }
}

} // verus!
