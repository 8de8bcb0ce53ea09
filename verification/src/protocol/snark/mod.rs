//! The claim language: witness layout, public weights and claim expressions.
pub mod canonical;
pub mod degree;
pub mod lowering;
pub mod region_claims;
pub mod rounds;
pub mod check_claims;
pub mod semantics;
pub mod tensor;

use vstd::prelude::*;
use vstd::arithmetic::div_mod::*;
use vstd::arithmetic::power2::*;
use crate::common::algebra::{lemma_fmod_pair_fixed, lemma_mod_add_sub, lemma_mod_lin, lemma_pmul_laws, lemma_pops_reduced, lemma_seq_laws, pconst, pmul, preduced, psub, sadd, sconst, smul};
use crate::common::bits::{ilog2, is_pow2, lemma_log2_mono, lemma_pow2_log2, log2, pow2_usize};
use crate::common::config::HALF_DEGREE;
use crate::common::matrix::{vec_view, vec_wf, VerticallyAlignedMatrix};
use crate::common::ring_arithmetic::{sconj, QuadraticExtension, Representation, RingElement};
use crate::protocol::commitment::Prefix;
use crate::common::arithmetic::{checked_inv_mod, has_inverse, pow_mod, pow_q};
use crate::common::field::{add_mod, fmod, mul_mod};
use crate::common::hash::{challenge_at, HashWrapper};
use crate::common::conjugation::{
    lemma_sconj_add, lemma_sconj_mul, lemma_sconj_sub, lemma_sconj_wf, lemma_sconj_zero_involution,
};
use crate::protocol::snark::lowering::{
    embed_qe, expand_field_tensor, sample_qe_layers, tensor_at, weighted_layer, ClaimExpr, ClaimFactor, Coeffs, PublicFactor, SnarkClaim, Weights,
};
use crate::protocol::snark::region_claims::region_leaf;
use crate::protocol::snark::semantics::{cube_sum, eval_expr, expr_ok, in_prefix_spec, lemma_consts_wf, lemma_rops_wf, lemma_rtensor_wf, middle_index, no_public, public_ok, public_val, rone, rtensor_val, rwf, rzero};
use crate::protocol::snark::tensor::{
    layer_factor, lemma_layer_factor_reduced, lemma_tensor_val_reduced, qe_all_wf, qe_seq, tensor_val,
};

verus! {

/// A dyadic region of the witness: `len` entries from `start`, with `len` a
/// power of two dividing `start`, inside a witness of `witness_len` entries.
pub open spec fn region_ok(start: int, len: int, witness_len: int) -> bool {
    &&& len > 0
    &&& is_pow2(len as nat)
    &&& is_pow2(witness_len as nat)
    &&& start % len == 0
    &&& 0 <= start
    &&& start + len <= witness_len
}

/// An aligned power-of-two block of the witness.
#[derive(Clone, Copy, Debug, PartialEq, Eq)]
pub struct Region {
    start: usize,
    len: usize,
    witness_len: usize,
}

impl View for Region {
    /// `(start, len, witness_len)`.
    type V = (int, int, int);

    closed spec fn view(&self) -> (int, int, int) {
        (self.start as int, self.len as int, self.witness_len as int)
    }
}

impl Region {
    #[verifier::type_invariant]
    closed spec fn inv(self) -> bool {
        region_ok(self.start as int, self.len as int, self.witness_len as int)
    }

    /// The region of `len` entries from `start`; power-of-two lengths,
    /// alignment and containment are the precondition.
    pub fn new(start: usize, len: usize, witness_len: usize) -> (r: Region)
        requires
            region_ok(start as int, len as int, witness_len as int),
        ensures
            r@ == (start as int, len as int, witness_len as int),
    {
        Region { start, len, witness_len }
    }

    /// The whole witness as one region.
    pub fn whole(witness_len: usize) -> (r: Region)
        requires
            is_pow2(witness_len as nat),
        ensures
            r@ == (0int, witness_len as int, witness_len as int),
    {
        proof {
            lemma_pow2_log2(witness_len as nat);
            lemma_mod_self_0(witness_len as int);
        }
        Region::new(0, witness_len, witness_len)
    }

    pub fn start(&self) -> (r: usize)
        ensures
            r == self@.0,
    {
        self.start
    }

    pub fn len(&self) -> (r: usize)
        ensures
            r == self@.1,
    {
        self.len
    }

    /// A region is never empty.
    pub fn is_empty(&self) -> (r: bool)
        ensures
            r == (self@.1 == 0),
    {
        proof {
            use_type_invariant(self);
        }
        false
    }

    /// The indices the region covers.
    pub fn range(&self) -> (r: std::ops::Range<usize>)
        ensures
            r.start == self@.0,
            r.end == self@.0 + self@.1,
    {
        proof {
            use_type_invariant(self);
        }
        self.start..self.start + self.len
    }

    /// The `log2(len)` index variables addressing the region's entries: the
    /// low variables of the witness index, after the `log2(witness_len) -
    /// log2(len)` variables that select the region.
    pub fn vars(&self) -> (r: Vars)
        ensures
            r@ == (
                log2(self@.2 as nat) - log2(self@.1 as nat),
                log2(self@.1 as nat) as int,
                log2(self@.2 as nat) as int,
            ),
    {
        proof {
            use_type_invariant(self);
            lemma_log2_mono(self.len as nat, self.witness_len as nat);
        }
        let total = ilog2(self.witness_len);
        let len = ilog2(self.len);
        Vars { skip: total - len, len, total }
    }

    /// The binary prefix that selects the region.
    pub fn prefix(&self) -> (r: Prefix)
        ensures
            r.prefix == self@.0 / self@.1,
            r.length == log2(self@.2 as nat) - log2(self@.1 as nat),
    {
        proof {
            use_type_invariant(self);
            lemma_log2_mono(self.len as nat, self.witness_len as nat);
        }
        let total = ilog2(self.witness_len);
        let len = ilog2(self.len);
        Prefix { prefix: self.start / self.len, length: total - len }
    }
}

/// Consecutive index variables of the witness (most-significant first):
/// `len` variables after the first `skip`, out of `total`.
#[derive(Clone, Copy, Debug, PartialEq, Eq)]
pub struct Vars {
    skip: usize,
    len: usize,
    total: usize,
}

impl View for Vars {
    /// `(skip, len, total)`.
    type V = (int, int, int);

    closed spec fn view(&self) -> (int, int, int) {
        (self.skip as int, self.len as int, self.total as int)
    }
}

impl Vars {
    #[verifier::type_invariant]
    closed spec fn inv(self) -> bool {
        self.skip + self.len <= self.total
    }

    pub fn len(&self) -> (r: usize)
        ensures
            r == self@.1,
    {
        self.len
    }

    pub fn is_empty(&self) -> (r: bool)
        ensures
            r == (self@.1 == 0),
    {
        self.len == 0
    }

    /// The first `num_vars` variables and the rest.
    pub fn split_at(self, num_vars: usize) -> (r: (Vars, Vars))
        requires
            num_vars <= self@.1,
        ensures
            r.0@ == (self@.0, num_vars as int, self@.2),
            r.1@ == (self@.0 + num_vars, self@.1 - num_vars, self@.2),
    {
        proof {
            use_type_invariant(self);
        }
        (
            Vars { skip: self.skip, len: num_vars, total: self.total },
            Vars { skip: self.skip + num_vars, len: self.len - num_vars, total: self.total },
        )
    }

    /// The first `num_vars` variables.
    pub fn leading(self, num_vars: usize) -> (r: Vars)
        requires
            num_vars <= self@.1,
        ensures
            r@ == (self@.0, num_vars as int, self@.2),
    {
        self.split_at(num_vars).0
    }

    /// The last `num_vars` variables.
    pub fn trailing(self, num_vars: usize) -> (r: Vars)
        requires
            num_vars <= self@.1,
        ensures
            r@ == (self@.0 + self@.1 - num_vars, num_vars as int, self@.2),
    {
        proof {
            use_type_invariant(self);
        }
        self.split_at(self.len - num_vars).1
    }
}

/// The first multiple of `len` at or after `cursor`.
pub open spec fn round_up(cursor: int, len: int) -> int {
    if cursor % len == 0 {
        cursor
    } else {
        cursor + (len - cursor % len)
    }
}

proof fn lemma_round_up(cursor: int, len: int)
    requires
        cursor >= 0,
        len > 0,
    ensures
        round_up(cursor, len) % len == 0,
        cursor <= round_up(cursor, len) < cursor + len,
{
    lemma_mod_bound(cursor, len);
    if cursor % len != 0 {
        lemma_fundamental_div_mod(cursor, len);
        let k = cursor / len;
        assert(round_up(cursor, len) == (k + 1) * len) by (nonlinear_arith)
            requires
                cursor == len * k + cursor % len,
                round_up(cursor, len) == cursor + (len - cursor % len),
        ;
        lemma_mod_multiples_basic(k + 1, len);
    }
}

/// The layout after pushing `values` onto `b`: the block lands at the first
/// multiple of its length at or after the cursor, and the cursor moves past it.
pub open spec fn pushed(b: WitnessLayout, values: Seq<Seq<(int, int)>>) -> WitnessLayout {
    let start = round_up(b.cursor as int, values.len() as int);
    WitnessLayout {
        height: b.height,
        width: b.width,
        data: Seq::new(
            b.data.len(),
            |i: int|
                if start <= i < start + values.len() {
                    values[i - start]
                } else {
                    b.data[i]
                },
        ),
        cursor: (start + values.len()) as nat,
    }
}

/// The layout after pushing each block of `blocks` onto `b`, in order.
pub open spec fn pushed_all(b: WitnessLayout, blocks: Seq<Seq<Seq<(int, int)>>>) -> WitnessLayout
    decreases blocks.len(),
{
    if blocks.len() == 0 {
        b
    } else {
        pushed(pushed_all(b, blocks.drop_last()), blocks.last())
    }
}

/// Where block `t` of `blocks` lands when the blocks are pushed onto `b`.
pub open spec fn block_start(b: WitnessLayout, blocks: Seq<Seq<Seq<(int, int)>>>, t: int) -> int {
    round_up(pushed_all(b, blocks.take(t)).cursor as int, blocks[t].len() as int)
}

/// Every block is non-empty and fits where it lands.
pub open spec fn pushes_fit(b: WitnessLayout, blocks: Seq<Seq<Seq<(int, int)>>>) -> bool {
    forall|t: int|
        #![trigger block_start(b, blocks, t)]
        0 <= t < blocks.len() ==> blocks[t].len() > 0 && block_start(b, blocks, t) + blocks[t].len()
            <= b.data.len()
}

/// Entry `j` lies in none of the places where the blocks landed.
pub open spec fn outside_blocks(b: WitnessLayout, blocks: Seq<Seq<Seq<(int, int)>>>, j: int) -> bool {
    forall|t: int|
        0 <= t < blocks.len() ==> !(block_start(b, blocks, t) <= j < #[trigger] block_start(
            b,
            blocks,
            t,
        ) + blocks[t].len())
}

proof fn lemma_block_start_prefix(b: WitnessLayout, blocks: Seq<Seq<Seq<(int, int)>>>, t: int)
    requires
        0 <= t < blocks.len() - 1,
    ensures
        block_start(b, blocks.drop_last(), t) == block_start(b, blocks, t),
{
    assert(blocks.drop_last().take(t) =~= blocks.take(t));
}

proof fn lemma_pushes_inv(b: WitnessLayout, blocks: Seq<Seq<Seq<(int, int)>>>)
    requires
        b.cursor == 0,
        forall|i: int| 0 <= i < b.data.len() ==> #[trigger] b.data[i] == sconst(HALF_DEGREE as nat, (0, 0)),
        pushes_fit(b, blocks),
    ensures
        pushed_all(b, blocks).data.len() == b.data.len(),
        pushed_all(b, blocks).cursor <= b.data.len(),
        forall|t: int|
            0 <= t < blocks.len() ==> #[trigger] block_start(b, blocks, t) >= 0 && block_start(
                b,
                blocks,
                t,
            ) + blocks[t].len() <= pushed_all(b, blocks).cursor,
        forall|t: int, u: int|
            0 <= t < u < blocks.len() ==> #[trigger] block_start(b, blocks, t) + blocks[t].len()
                <= #[trigger] block_start(b, blocks, u),
        forall|t: int, i: int|
            0 <= t < blocks.len() && 0 <= i < blocks[t].len() ==> pushed_all(b, blocks).data[block_start(
                b,
                blocks,
                t,
            ) + i] == #[trigger] blocks[t][i],
        forall|j: int|
            pushed_all(b, blocks).cursor <= j < b.data.len() ==> #[trigger] pushed_all(
                b,
                blocks,
            ).data[j] == sconst(HALF_DEGREE as nat, (0, 0)),
        forall|j: int|
            0 <= j < b.data.len() && outside_blocks(b, blocks, j) ==> #[trigger] pushed_all(
                b,
                blocks,
            ).data[j] == sconst(HALF_DEGREE as nat, (0, 0)),
    decreases blocks.len(),
{
    if blocks.len() > 0 {
        let m = blocks.len() - 1;
        let pb = blocks.drop_last();
        assert forall|t: int| 0 <= t < pb.len() implies #[trigger] pb[t].len() > 0 by {
            assert(block_start(b, blocks, t) + blocks[t].len() <= b.data.len());
            assert(pb[t] == blocks[t]);
        }
        assert forall|t: int| 0 <= t < pb.len() implies #[trigger] block_start(b, pb, t)
            + pb[t].len() <= b.data.len() by {
            lemma_block_start_prefix(b, blocks, t);
            assert(block_start(b, blocks, t) + blocks[t].len() <= b.data.len());
        }
        assert(pushes_fit(b, pb));
        lemma_pushes_inv(b, pb);
        let prev = pushed_all(b, pb);
        assert(blocks.take(m) =~= pb);
        let s = block_start(b, blocks, m);
        let len = blocks[m].len() as int;
        assert(s + len <= b.data.len());
        lemma_round_up(prev.cursor as int, len);
        assert(s >= prev.cursor);
        let f = pushed_all(b, blocks);
        assert(f == pushed(prev, blocks[m]));
        assert forall|t: int| 0 <= t < m implies #[trigger] block_start(b, blocks, t) == block_start(
            b,
            pb,
            t,
        ) by {
            lemma_block_start_prefix(b, blocks, t);
        }
        assert forall|t: int| 0 <= t < blocks.len() implies #[trigger] block_start(b, blocks, t) >= 0
            && block_start(b, blocks, t) + blocks[t].len() <= f.cursor by {
            if t < m {
                assert(block_start(b, pb, t) + pb[t].len() <= prev.cursor);
            }
        }
        assert forall|t: int, u: int| 0 <= t < u < blocks.len() implies #[trigger] block_start(
            b,
            blocks,
            t,
        ) + blocks[t].len() <= #[trigger] block_start(b, blocks, u) by {
            assert(block_start(b, pb, t) + pb[t].len() <= prev.cursor);
            if u < m {
                assert(block_start(b, pb, t) + pb[t].len() <= block_start(b, pb, u));
            }
        }
        assert forall|t: int, i: int| 0 <= t < blocks.len() && 0 <= i < blocks[t].len() implies f.data[block_start(
            b,
            blocks,
            t,
        ) + i] == #[trigger] blocks[t][i] by {
            if t < m {
                assert(block_start(b, pb, t) + pb[t].len() <= prev.cursor);
                assert(prev.data[block_start(b, pb, t) + i] == pb[t][i]);
            }
        }
        assert forall|j: int| 0 <= j < b.data.len() && outside_blocks(b, blocks, j) implies #[trigger] f.data[j]
            == sconst(HALF_DEGREE as nat, (0, 0)) by {
            assert(!(block_start(b, blocks, m) <= j < block_start(b, blocks, m) + blocks[m].len()));
            if j < prev.cursor {
                assert forall|t: int| 0 <= t < pb.len() implies !(block_start(b, pb, t) <= j
                    < #[trigger] block_start(b, pb, t) + pb[t].len()) by {
                    assert(!(block_start(b, blocks, t) <= j < block_start(b, blocks, t) + blocks[t].len()));
                }
                assert(outside_blocks(b, pb, j));
            }
        }
    }
}

/// Blocks pushed in turn onto a fresh builder land in order without
/// overlapping, each block reads back where it landed, and every entry
/// outside the landed blocks stays zero.
pub proof fn lemma_pushes_read_back(b: WitnessLayout, blocks: Seq<Seq<Seq<(int, int)>>>)
    requires
        b.cursor == 0,
        forall|i: int| 0 <= i < b.data.len() ==> #[trigger] b.data[i] == sconst(HALF_DEGREE as nat, (0, 0)),
        pushes_fit(b, blocks),
    ensures
        pushed_all(b, blocks).data.len() == b.data.len(),
        forall|t: int, u: int|
            0 <= t < u < blocks.len() ==> #[trigger] block_start(b, blocks, t) + blocks[t].len()
                <= #[trigger] block_start(b, blocks, u),
        forall|t: int, i: int|
            0 <= t < blocks.len() && 0 <= i < blocks[t].len() ==> pushed_all(b, blocks).data[block_start(
                b,
                blocks,
                t,
            ) + i] == #[trigger] blocks[t][i],
        forall|j: int|
            0 <= j < b.data.len() && outside_blocks(b, blocks, j) ==> #[trigger] pushed_all(
                b,
                blocks,
            ).data[j] == sconst(HALF_DEGREE as nat, (0, 0)),
{
    lemma_pushes_inv(b, blocks);
}

/// Lays regions out in a witness of `height * width` entries: each `push`
/// aligns itself to its own length and returns its [`Region`]; gaps stay zero.
pub struct WitnessBuilder {
    height: usize,
    width: usize,
    data: Vec<RingElement>,
    cursor: usize,
}

/// The abstract state of a [`WitnessBuilder`].
pub struct WitnessLayout {
    pub height: nat,
    pub width: nat,
    pub data: Seq<Seq<(int, int)>>,
    pub cursor: nat,
}

impl View for WitnessBuilder {
    type V = WitnessLayout;

    closed spec fn view(&self) -> WitnessLayout {
        WitnessLayout {
            height: self.height as nat,
            width: self.width as nat,
            data: vec_view(self.data@),
            cursor: self.cursor as nat,
        }
    }
}

impl WitnessBuilder {
    /// The entries fill a power-of-two witness of `height * width` ring
    /// elements, and the cursor lies inside it.
    pub closed spec fn wf(&self) -> bool {
        &&& self.data@.len() == self.height * self.width
        &&& is_pow2(self.data@.len() as nat)
        &&& self.cursor <= self.data@.len()
        &&& vec_wf(self.data@)
    }

    /// An all-zero witness of `height * width` entries.
    pub fn new(height: usize, width: usize) -> (r: WitnessBuilder)
        requires
            height * width <= usize::MAX,
            is_pow2((height * width) as nat),
        ensures
            r.wf(),
            r@.height == height,
            r@.width == width,
            r@.cursor == 0,
            r@.data == Seq::new((height * width) as nat, |i: int| sconst(HALF_DEGREE as nat, (0, 0))),
    {
        let n = height * width;
        let mut data: Vec<RingElement> = Vec::with_capacity(n);
        let mut i: usize = 0;
        while i < n
            invariant
                i <= n,
                data@.len() == i,
                vec_wf(data@),
                forall|k: int| 0 <= k < i ==> #[trigger] data@[k]@ == sconst(HALF_DEGREE as nat, (0, 0)),
            decreases n - i,
        {
            data.push(RingElement::zero(Representation::IncompleteNTT));
            i = i + 1;
        }
        let r = WitnessBuilder { height, width, data, cursor: 0 };
        assert(r@.data =~= Seq::new(n as nat, |i: int| sconst(HALF_DEGREE as nat, (0, 0))));
        r
    }

    /// Places `values` at the first multiple of its length at or after the
    /// cursor, and moves the cursor past it.
    pub fn push(&mut self, values: &[RingElement]) -> (r: Region)
        requires
            old(self).wf(),
            values@.len() > 0,
            is_pow2(values@.len() as nat),
            vec_wf(values@),
            round_up(old(self)@.cursor as int, values@.len() as int) + values@.len()
                <= old(self)@.data.len(),
        ensures
            r@ == (
                round_up(old(self)@.cursor as int, values@.len() as int),
                values@.len() as int,
                old(self)@.data.len() as int,
            ),
            final(self).wf(),
            final(self)@.height == old(self)@.height,
            final(self)@.width == old(self)@.width,
            final(self)@.cursor == r@.0 + r@.1,
            final(self)@ == pushed(old(self)@, vec_view(values@)),
            final(self)@.data.len() == old(self)@.data.len(),
            forall|i: int|
                0 <= i < final(self)@.data.len() ==> #[trigger] final(self)@.data[i] == if r@.0
                    <= i < r@.0 + r@.1 {
                    values@[i - r@.0]@
                } else {
                    old(self)@.data[i]
                },
    {
        let len = values.len();
        let ghost old_data = self.data@;
        let n = self.data.len();
        proof {
            lemma_round_up(self.cursor as int, len as int);
            lemma_mod_bound(self.cursor as int, len as int);
        }
        let start = if self.cursor % len == 0 {
            self.cursor
        } else {
            self.cursor + (len - self.cursor % len)
        };
        let mut k: usize = 0;
        while k < len
            invariant
                k <= len,
                len == values@.len(),
                start + len <= self.data@.len(),
                self.data@.len() == old_data.len(),
                self.data@.len() == n,
                self.data@.len() == self.height * self.width,
                self.height == old(self).height,
                self.width == old(self).width,
                self.cursor == old(self).cursor,
                is_pow2(self.data@.len() as nat),
                self.cursor <= self.data@.len(),
                vec_wf(self.data@),
                vec_wf(values@),
                forall|i: int|
                    0 <= i < self.data@.len() ==> #[trigger] self.data@[i]@ == if start <= i
                        < start + k {
                        values@[i - start]@
                    } else {
                        old_data[i]@
                    },
            decreases len - k,
        {
            let v = values[k].duplicate();
            self.data.set(start + k, v);
            k = k + 1;
        }
        self.cursor = start + len;
        proof {
            lemma_pow2_log2(old_data.len() as nat);
            assert(self@.data =~= pushed(old(self)@, vec_view(values@)).data);
        }
        Region::new(start, len, self.data.len())
    }

    /// The laid-out witness, as a `height x width` column-major matrix.
    pub fn finish(self) -> (r: VerticallyAlignedMatrix<RingElement>)
        requires
            self.wf(),
        ensures
            r.wf(),
            r.height == self@.height,
            r.width == self@.width,
            r.used_cols == r.width,
            vec_view(r.data@) == self@.data,
    {
        proof {
            vstd::arithmetic::mul::lemma_mul_is_commutative(self.height as int, self.width as int);
        }
        VerticallyAlignedMatrix {
            height: self.height,
            width: self.width,
            used_cols: self.width,
            data: self.data,
        }
    }
}


fn zero() -> (r: RingElement)
    ensures
        r.wf(),
        r@ == rzero(),
{
    RingElement::zero(Representation::IncompleteNTT)
}

fn one() -> (r: RingElement)
    ensures
        r.wf(),
        r@ == rone(),
{
    let r = RingElement::constant(1, Representation::IncompleteNTT);
    proof {
        vstd::arithmetic::div_mod::lemma_small_mod(1, crate::common::field::q() as nat);
    }
    r
}

/// Weight entries, over the ring or over the extension field.
pub enum Scalars {
    Ring(Vec<RingElement>),
    Field(Vec<QuadraticExtension>),
}

impl Scalars {
    /// The number of entries.
    pub open spec fn spec_count(&self) -> nat {
        match self {
            Scalars::Ring(v) => v@.len(),
            Scalars::Field(v) => v@.len(),
        }
    }

    fn len(&self) -> (r: usize)
        ensures
            r == self.spec_count(),
    {
        match self {
            Scalars::Ring(v) => v.len(),
            Scalars::Field(v) => v.len(),
        }
    }
}

/// What a weight reads its entries as.
pub enum WeightKind {
    /// `eq(point, index)`, one coordinate per index bit.
    Eq(Scalars),
    /// A table, entry `i` at index `i`.
    Table(Scalars),
}

/// A public weight factor; it spans the whole witness unless placed with
/// [`Weight::on`].
pub struct Weight {
    pub kind: WeightKind,
    pub placement: Option<Vars>,
    pub coefficient: Option<RingElement>,
}

/// The weight `eq(point, index)`, one coordinate per index bit
/// (most-significant first).
pub fn eq(point: Scalars) -> (r: Weight)
    ensures
        r == (Weight { kind: WeightKind::Eq(point), placement: None, coefficient: None }),
{
    Weight { kind: WeightKind::Eq(point), placement: None, coefficient: None }
}

/// An arbitrary weight table: entry `i` is `values[i]`.
pub fn table(values: Scalars) -> (r: Weight)
    ensures
        r == (Weight { kind: WeightKind::Table(values), placement: None, coefficient: None }),
{
    Weight { kind: WeightKind::Table(values), placement: None, coefficient: None }
}

impl Weight {
    /// Vary over the variable block `at` and stay constant elsewhere.
    pub fn on(self, at: Vars) -> (r: Weight)
        requires
            match self.kind {
                WeightKind::Eq(point) => point.spec_count() == at@.1,
                WeightKind::Table(values) => values.spec_count() == pow2(at@.1 as nat),
            },
        ensures
            r == (Weight { kind: self.kind, placement: Some(at), coefficient: self.coefficient }),
    {
        Weight { kind: self.kind, placement: Some(at), coefficient: self.coefficient }
    }
}

/// The public factor a weight lowers to: the weight data in its shape,
/// placed on the weight's variables.
pub open spec fn weight_factor(w: Weight) -> PublicFactor {
    let weights = match w.kind {
        WeightKind::Eq(Scalars::Ring(v)) => Weights::Tensor(Coeffs::Ring(v)),
        WeightKind::Eq(Scalars::Field(v)) => Weights::Tensor(Coeffs::Field(v)),
        WeightKind::Table(Scalars::Ring(v)) => Weights::Dense(Coeffs::Ring(v)),
        WeightKind::Table(Scalars::Field(v)) => Weights::Dense(Coeffs::Field(v)),
    };
    match w.placement {
        Some(at) => PublicFactor {
            prefix_len: at@.0 as usize,
            suffix_len: (at@.2 - at@.0 - at@.1) as usize,
            weights,
        },
        None => PublicFactor { prefix_len: 0, suffix_len: 0, weights },
    }
}

impl ClaimExpr {
    /// The claim-expression leaf of a weight, scaled by its coefficient when
    /// it has one.
    pub fn from_weight(w: Weight) -> (r: ClaimExpr)
        requires
            w.coefficient matches Some(c) ==> c.wf(),
        ensures
            match w.coefficient {
                Some(c) => r matches ClaimExpr::Scale(d, x) && d@ == c@ && d.wf() && *x
                    == ClaimExpr::Factor(ClaimFactor::Public(weight_factor(w))),
                None => r == ClaimExpr::Factor(ClaimFactor::Public(weight_factor(w))),
            },
    {
        let ghost pf = weight_factor(w);
        let weights = match w.kind {
            WeightKind::Eq(Scalars::Ring(v)) => Weights::Tensor(Coeffs::Ring(v)),
            WeightKind::Eq(Scalars::Field(v)) => Weights::Tensor(Coeffs::Field(v)),
            WeightKind::Table(Scalars::Ring(v)) => Weights::Dense(Coeffs::Ring(v)),
            WeightKind::Table(Scalars::Field(v)) => Weights::Dense(Coeffs::Field(v)),
        };
        let (prefix_len, suffix_len) = match w.placement {
            Some(at) => {
                proof {
                    use_type_invariant(&at);
                }
                (at.skip, at.total - at.skip - at.len)
            },
            None => (0, 0),
        };
        let expr = ClaimExpr::public(PublicFactor { prefix_len, suffix_len, weights });
        match w.coefficient {
            Some(c) => expr.scale(&c),
            None => expr,
        }
    }
}

/// The full committed vector.
pub fn witness() -> (r: ClaimExpr)
    ensures
        r == ClaimExpr::Factor(ClaimFactor::Witness),
{
    ClaimExpr::witness()
}

/// One region's entries: a term holding it sums over that region only.
pub fn witness_in(region: Region) -> (r: ClaimExpr)
    ensures
        r == region_leaf(region@.0, region@.1, region@.2),
        region@.1 == region@.2 ==> r == ClaimExpr::Factor(ClaimFactor::Witness),
        region@.1 != region@.2 ==> r == ClaimExpr::Factor(
            ClaimFactor::WitnessSegment(
                Prefix {
                    prefix: (region@.0 / region@.1) as usize,
                    length: (log2(region@.2 as nat) - log2(region@.1 as nat)) as usize,
                },
            ),
        ),
{
    if region.len == region.witness_len {
        ClaimExpr::witness()
    } else {
        ClaimExpr::segment(region.prefix())
    }
}

/// The constants and scales of an expression are canonical ring elements.
pub open spec fn consts_ok(e: ClaimExpr) -> bool
    decreases e,
{
    match e {
        ClaimExpr::Factor(_) => true,
        ClaimExpr::Constant(c) => c.wf(),
        ClaimExpr::Scale(c, x) => c.wf() && consts_ok(*x),
        ClaimExpr::Product(a, b) => consts_ok(*a) && consts_ok(*b),
        ClaimExpr::Sum(a, b) => consts_ok(*a) && consts_ok(*b),
        ClaimExpr::Diff(a, b) => consts_ok(*a) && consts_ok(*b),
    }
}

/// `r` is the conjugate of `e`: the same tree with witness leaves swapped for
/// their conjugates and every ring scalar conjugated.
pub open spec fn conj_rel(e: ClaimExpr, r: ClaimExpr) -> bool
    decreases e,
{
    match (e, r) {
        (ClaimExpr::Factor(ClaimFactor::Witness), ClaimExpr::Factor(ClaimFactor::ConjWitness)) => true,
        (ClaimExpr::Factor(ClaimFactor::ConjWitness), ClaimExpr::Factor(ClaimFactor::Witness)) => true,
        (
            ClaimExpr::Factor(ClaimFactor::WitnessSegment(p)),
            ClaimExpr::Factor(ClaimFactor::ConjWitnessSegment(p2)),
        ) => p == p2,
        (
            ClaimExpr::Factor(ClaimFactor::ConjWitnessSegment(p)),
            ClaimExpr::Factor(ClaimFactor::WitnessSegment(p2)),
        ) => p == p2,
        (ClaimExpr::Constant(c), ClaimExpr::Constant(d)) => d.wf() && d@ == sconj(c@),
        (ClaimExpr::Scale(c, x), ClaimExpr::Scale(d, y)) => d.wf() && d@ == sconj(c@) && conj_rel(
            *x,
            *y,
        ),
        (ClaimExpr::Product(a, b), ClaimExpr::Product(c, d)) => conj_rel(*a, *c) && conj_rel(*b, *d),
        (ClaimExpr::Sum(a, b), ClaimExpr::Sum(c, d)) => conj_rel(*a, *c) && conj_rel(*b, *d),
        (ClaimExpr::Diff(a, b), ClaimExpr::Diff(c, d)) => conj_rel(*a, *c) && conj_rel(*b, *d),
        _ => false,
    }
}

impl ClaimExpr {
    /// Ring conjugation `X -> X^{-1}` of the committed and constant factors.
    /// Public weights have no conjugate here, so the expression must hold
    /// none.
    pub fn conjugate(self) -> (r: ClaimExpr)
        requires
            no_public(self),
            consts_ok(self),
        ensures
            conj_rel(self, r),
        decreases self,
    {
        match self {
            ClaimExpr::Factor(ClaimFactor::Witness) => ClaimExpr::conj_witness(),
            ClaimExpr::Factor(ClaimFactor::ConjWitness) => ClaimExpr::witness(),
            ClaimExpr::Factor(ClaimFactor::WitnessSegment(p)) => ClaimExpr::conj_segment(p),
            ClaimExpr::Factor(ClaimFactor::ConjWitnessSegment(p)) => ClaimExpr::segment(p),
            ClaimExpr::Factor(ClaimFactor::Public(_)) => {
                proof {
                    assert(false);
                }
                ClaimExpr::witness()
            },
            ClaimExpr::Constant(c) => ClaimExpr::Constant(c.conjugate()),
            ClaimExpr::Product(a, b) => {
                let l = (*a).conjugate();
                let r = (*b).conjugate();
                l.mul(r)
            },
            ClaimExpr::Sum(a, b) => {
                let l = (*a).conjugate();
                let r = (*b).conjugate();
                l.add(r)
            },
            ClaimExpr::Diff(a, b) => {
                let l = (*a).conjugate();
                let r = (*b).conjugate();
                l.sub(r)
            },
            ClaimExpr::Scale(c, x) => {
                let y = (*x).conjugate();
                let d = c.conjugate();
                y.scale(&d)
            },
        }
    }

    /// The true sum of the expression over the witness cube: the value a
    /// correct prover claims.
    pub fn sum(&self, witness: &VerticallyAlignedMatrix<RingElement>) -> (r: RingElement)
        requires
            is_pow2(witness.data@.len() as nat),
            vec_wf(witness.data@),
            expr_ok(*self, log2(witness.data@.len() as nat)),
        ensures
            r.wf(),
            r@ == cube_sum(
                *self,
                vec_view(witness.data@),
                log2(witness.data@.len() as nat),
                witness.data@.len() as nat,
            ),
    {
        let n = witness.data.len();
        let total = ilog2(n);
        proof {
            lemma_pow2_log2(n as nat);
        }
        let mut acc = zero();
        let mut index: usize = 0;
        while index < n
            invariant
                index <= n,
                n == witness.data@.len(),
                n == pow2(total as nat),
                total == log2(n as nat),
                vec_wf(witness.data@),
                expr_ok(*self, total as nat),
                acc.wf(),
                acc@ == cube_sum(*self, vec_view(witness.data@), total as nat, index as nat),
            decreases n - index,
        {
            let v = eval_at(self, &witness.data, index, total);
            acc = acc.add(&v);
            index = index + 1;
        }
        acc
    }
}

/// Whether `index` lies in the block under `p` of a cube of `total_vars`
/// variables.
fn in_prefix(index: usize, p: &Prefix, total_vars: usize) -> (r: bool)
    requires
        p.length <= total_vars,
        pow2(total_vars as nat) <= usize::MAX,
    ensures
        r == in_prefix_spec(index as int, *p, total_vars as nat),
{
    if p.length == 0 {
        true
    } else {
        proof {
            if p.length > 0 {
                lemma_pow2_strictly_increases((total_vars - p.length) as nat, total_vars as nat);
            }
            lemma_pow2_pos((total_vars - p.length) as nat);
        }
        index / pow2_usize(total_vars - p.length) == p.prefix
    }
}

/// The value of a public weight at `index`.
pub(crate) fn eval_public_at(pf: &PublicFactor, index: usize, total_vars: usize) -> (r: RingElement)
    requires
        public_ok(*pf, total_vars as nat),
        pow2(total_vars as nat) <= usize::MAX,
    ensures
        r.wf(),
        r@ == public_val(*pf, index as int, total_vars as nat),
{
    if let Weights::Selector { bits, length } = &pf.weights {
        let p = Prefix { prefix: *bits, length: *length };
        return if in_prefix(index, &p, total_vars) {
            one()
        } else {
            zero()
        };
    }
    let mv = total_vars - pf.prefix_len - pf.suffix_len;
    proof {
        if pf.suffix_len < total_vars {
            lemma_pow2_strictly_increases(pf.suffix_len as nat, total_vars as nat);
        }
        if mv < total_vars {
            lemma_pow2_strictly_increases(mv as nat, total_vars as nat);
        }
        lemma_pow2_pos(mv as nat);
        lemma_pow2_pos(pf.suffix_len as nat);
    }
    let middle = (index / pow2_usize(pf.suffix_len)) % pow2_usize(mv);
    proof {
        assert(middle == middle_index(*pf, index as int, total_vars as nat));
        vstd::arithmetic::div_mod::lemma_mod_bound(
            (index / pow2(pf.suffix_len as nat) as usize) as int,
            pow2(mv as nat) as int,
        );
    }
    match &pf.weights {
        Weights::Selector { .. } => zero(),
        Weights::Dense(Coeffs::Ring(v)) => v[middle].duplicate(),
        Weights::Dense(Coeffs::Field(v)) => embed_qe(&v[middle]),
        Weights::Tensor(Coeffs::Field(layers)) => embed_qe(&tensor_at(layers.as_slice(), middle)),
        Weights::Tensor(Coeffs::Ring(layers)) => ring_tensor_at(layers, middle),
    }
}

/// Entry `index` of the ring eq-tensor with the given layers.
fn ring_tensor_at(layers: &Vec<RingElement>, index: usize) -> (r: RingElement)
    requires
        vec_wf(layers@),
    ensures
        r.wf(),
        r@ == rtensor_val(vec_view(layers@), index as int),
{
    let n = layers.len();
    let ghost full = vec_view(layers@);
    let mut acc = one();
    let mut idx = index;
    let mut k = n;
    proof {
        lemma_consts_wf();
        assert(full.take(n as int) =~= full);
        assert forall|j: int| 0 <= j < full.len() implies #[trigger] rwf(full[j]) by {
            assert(layers@[j].wf());
        }
        lemma_rtensor_wf(full, index as int);
        lemma_seq_laws(rtensor_val(full, index as int), rone(), rone());
    }
    while k > 0
        invariant
            k <= n,
            n == layers@.len(),
            full == vec_view(layers@),
            vec_wf(layers@),
            forall|j: int| 0 <= j < full.len() ==> #[trigger] rwf(full[j]),
            acc.wf(),
            rtensor_val(full, index as int) == smul(rtensor_val(full.take(k as int), idx as int), acc@),
        decreases k,
    {
        let a = &layers[k - 1];
        let f = if idx % 2 == 1 {
            a.duplicate()
        } else {
            one().sub(a)
        };
        proof {
            let pre = full.take(k as int);
            assert(pre.drop_last() =~= full.take(k - 1));
            assert(pre.last() == a@);
            assert(forall|j: int| 0 <= j < full.take(k - 1).len() ==> #[trigger] rwf(full.take(k - 1)[j]));
            lemma_rtensor_wf(full.take(k - 1), (idx / 2) as int);
            lemma_seq_laws(rtensor_val(full.take(k - 1), (idx / 2) as int), f@, acc@);
        }
        acc = f.mul(&acc);
        idx = idx / 2;
        k = k - 1;
    }
    proof {
        assert(full.take(0) =~= Seq::<Seq<(int, int)>>::empty());
        lemma_seq_laws(acc@, rone(), rone());
        lemma_seq_laws(rone(), acc@, acc@);
    }
    acc
}

/// The value of `expr` at point `index` of the witness cube.
fn eval_at(expr: &ClaimExpr, data: &Vec<RingElement>, index: usize, total_vars: usize) -> (r: RingElement)
    requires
        expr_ok(*expr, total_vars as nat),
        data@.len() == pow2(total_vars as nat),
        pow2(total_vars as nat) <= usize::MAX,
        vec_wf(data@),
        index < data@.len(),
    ensures
        r.wf(),
        r@ == eval_expr(*expr, vec_view(data@), index as int, total_vars as nat),
    decreases expr,
{
    match expr {
        ClaimExpr::Factor(ClaimFactor::Witness) => data[index].duplicate(),
        ClaimExpr::Factor(ClaimFactor::ConjWitness) => data[index].conjugate(),
        ClaimExpr::Factor(ClaimFactor::WitnessSegment(p)) => {
            if in_prefix(index, p, total_vars) {
                data[index].duplicate()
            } else {
                zero()
            }
        },
        ClaimExpr::Factor(ClaimFactor::ConjWitnessSegment(p)) => {
            if in_prefix(index, p, total_vars) {
                data[index].conjugate()
            } else {
                zero()
            }
        },
        ClaimExpr::Factor(ClaimFactor::Public(pf)) => eval_public_at(pf, index, total_vars),
        ClaimExpr::Constant(c) => c.duplicate(),
        ClaimExpr::Scale(c, x) => {
            let v = eval_at(x, data, index, total_vars);
            v.mul(c)
        },
        ClaimExpr::Product(a, b) => {
            let v = eval_at(a, data, index, total_vars);
            v.mul(&eval_at(b, data, index, total_vars))
        },
        ClaimExpr::Sum(a, b) => {
            let v = eval_at(a, data, index, total_vars);
            v.add(&eval_at(b, data, index, total_vars))
        },
        ClaimExpr::Diff(a, b) => {
            let v = eval_at(a, data, index, total_vars);
            v.sub(&eval_at(b, data, index, total_vars))
        },
    }
}

impl SnarkClaim {
    /// The claim `sum_z expr(z) = value`.
    pub fn sums_to(expr: ClaimExpr, value: RingElement) -> (r: SnarkClaim)
        ensures
            r.expr == expr,
            r.value == value,
    {
        SnarkClaim { expr, value }
    }

    /// The claim that `expr` sums to zero over the cube.
    pub fn sums_to_zero(expr: ClaimExpr) -> (r: SnarkClaim)
        ensures
            r.expr == expr,
            r.value.wf(),
            r.value@ == rzero(),
    {
        SnarkClaim::sums_to(expr, zero())
    }
}


/// `ratio^(2^t) mod q`: the weight of the bit of value `2^t`.
pub open spec fn bit_power(ratio: int, t: nat) -> int {
    pow_q(ratio, pow2(t))
}

/// The weights `ratio^(2^t)` of the first `n` bits, lowest bit first.
pub open spec fn bit_powers(ratio: int, n: nat) -> Seq<int> {
    Seq::new(n, |t: int| bit_power(ratio, t as nat))
}

/// `prod_t (1 + w[t]) mod q`.
pub open spec fn scale_of(w: Seq<int>) -> int
    decreases w.len(),
{
    if w.len() == 0 {
        1
    } else {
        fmod(fmod(1 + w[0]) * scale_of(w.drop_first()))
    }
}

/// `prod_{t : bit t of i set} w[t] mod q`.
pub open spec fn bit_product(w: Seq<int>, i: int) -> int
    decreases w.len(),
{
    if w.len() == 0 {
        1
    } else {
        fmod(
            (if i % 2 == 1 {
                w[0]
            } else {
                1
            }) * bit_product(w.drop_first(), i / 2),
        )
    }
}

/// The weight `ratio^i` over `2^num_vars` entries, as an eq-tensor (one
/// weighted layer per bit, most-significant first) with the product of the
/// layer scales as its coefficient. Defined unless some `1 + ratio^(2^t)`
/// vanishes modulo `q`, where no inverse exists.
pub fn powers(ratio: u64, num_vars: usize) -> (r: Weight)
    requires
        num_vars <= 64,
        forall|t: nat| t < num_vars ==> #[trigger] has_inverse(fmod(1 + bit_power(ratio as int, t))),
    ensures
        r.placement is None,
        r.kind matches WeightKind::Eq(Scalars::Field(layers)) && layers@.len() == num_vars
            && qe_all_wf(layers@) && forall|j: int|
            0 <= j < num_vars ==> (#[trigger] layers@[j])@.1 == 0 && fmod(
                layers@[j]@.0 * fmod(1 + bit_power(ratio as int, (num_vars - 1 - j) as nat)),
            ) == bit_power(ratio as int, (num_vars - 1 - j) as nat),
        r.coefficient matches Some(c) && c.wf() && c@ == sconst(
            HALF_DEGREE as nat,
            pconst(scale_of(bit_powers(ratio as int, num_vars as nat))),
        ),
{
    let mut layers: Vec<QuadraticExtension> = Vec::with_capacity(num_vars);
    let mut scale: u64 = 1;
    let mut k: usize = 0;
    proof {
        vstd::arithmetic::div_mod::lemma_small_mod(1, crate::common::field::q() as nat);
        let ws = bit_powers(ratio as int, num_vars as nat);
        assert(ws.subrange(num_vars as int, num_vars as int) =~= Seq::<int>::empty());
    }
    while k < num_vars
        invariant
            k <= num_vars,
            num_vars <= 64,
            forall|t: nat| t < num_vars ==> #[trigger] has_inverse(
                fmod(1 + bit_power(ratio as int, t)),
            ),
            layers@.len() == k,
            qe_all_wf(layers@),
            forall|j: int|
                0 <= j < k ==> (#[trigger] layers@[j])@.1 == 0 && fmod(
                    layers@[j]@.0 * fmod(1 + bit_power(ratio as int, (num_vars - 1 - j) as nat)),
                ) == bit_power(ratio as int, (num_vars - 1 - j) as nat),
            scale < crate::common::config::MOD_Q,
            scale == scale_of(bit_powers(ratio as int, num_vars as nat).subrange(num_vars - k, num_vars as int)),
        decreases num_vars - k,
    {
        let t = num_vars - 1 - k;
        proof {
            vstd::bits::lemma_u64_pow2_no_overflow(t as nat);
            vstd::bits::lemma_u64_shl_is_mul(1, t as u64);
        }
        let w = pow_mod(ratio, 1u64 << (t as u64));
        proof {
            assert(w == bit_power(ratio as int, t as nat));
            assert(has_inverse(fmod(1 + bit_power(ratio as int, t as nat))));
            vstd::arithmetic::div_mod::lemma_small_mod(w as nat, crate::common::field::q() as nat);
        }
        let (layer, s) = weighted_layer(w);
        layers.push(layer);
        proof {
            let ws = bit_powers(ratio as int, num_vars as nat);
            let top = ws.subrange(num_vars - k, num_vars as int);
            let next = ws.subrange(num_vars - k - 1, num_vars as int);
            assert(next.drop_first() =~= top);
            assert(next[0] == bit_power(ratio as int, t as nat));
            vstd::arithmetic::mul::lemma_mul_is_commutative(scale as int, s as int);
        }
        scale = mul_mod(scale, s);
        k = k + 1;
    }
    let c = RingElement::constant(scale, Representation::IncompleteNTT);
    proof {
        vstd::arithmetic::div_mod::lemma_small_mod(scale as nat, crate::common::field::q() as nat);
        let ws = bit_powers(ratio as int, num_vars as nat);
        assert(ws.subrange(0, num_vars as int) =~= ws);
    }
    Weight { kind: WeightKind::Eq(Scalars::Field(layers)), placement: None, coefficient: Some(c) }
}

/// [`powers`] where every pair `(1, ratio^(2^t))` it lowers is defined, that
/// is where each `1 + ratio^(2^t)` is invertible modulo `q`; `None` where one
/// is not.
pub fn checked_powers(ratio: u64, num_vars: usize) -> (r: Option<Weight>)
    requires
        num_vars <= 64,
    ensures
        r is Some <==> forall|t: nat| t < num_vars ==> #[trigger] has_inverse(
            fmod(1 + bit_power(ratio as int, t)),
        ),
        r matches Some(w) ==> {
            &&& w.placement is None
            &&& w.kind matches WeightKind::Eq(Scalars::Field(layers)) && layers@.len() == num_vars
                && qe_all_wf(layers@) && forall|j: int|
                0 <= j < num_vars ==> (#[trigger] layers@[j])@.1 == 0 && fmod(
                    layers@[j]@.0 * fmod(1 + bit_power(ratio as int, (num_vars - 1 - j) as nat)),
                ) == bit_power(ratio as int, (num_vars - 1 - j) as nat)
            &&& w.coefficient matches Some(c) && c.wf() && c@ == sconst(
                HALF_DEGREE as nat,
                pconst(scale_of(bit_powers(ratio as int, num_vars as nat))),
            )
        },
{
    let mut t: usize = 0;
    while t < num_vars
        invariant
            t <= num_vars,
            num_vars <= 64,
            forall|u: nat| u < t ==> #[trigger] has_inverse(fmod(1 + bit_power(ratio as int, u))),
        decreases num_vars - t,
    {
        proof {
            vstd::bits::lemma_u64_pow2_no_overflow(t as nat);
            vstd::bits::lemma_u64_shl_is_mul(1, t as u64);
        }
        let w = pow_mod(ratio, 1u64 << (t as u64));
        let scale = add_mod(1, w);
        proof {
            assert(w == bit_power(ratio as int, t as nat));
            vstd::arithmetic::div_mod::lemma_small_mod(1, crate::common::field::q() as nat);
            vstd::arithmetic::div_mod::lemma_small_mod(scale as nat, crate::common::field::q() as nat);
        }
        if checked_inv_mod(scale).is_none() {
            proof {
                assert(!has_inverse(fmod(1 + bit_power(ratio as int, t as nat))));
            }
            return None;
        }
        t = t + 1;
    }
    Some(powers(ratio, num_vars))
}

/// `sum_{i < n} eq(point, i) * values[i]`.
pub open spec fn eq_weighted(layers: Seq<(int, int)>, values: Seq<Seq<(int, int)>>, n: nat) -> Seq<
    (int, int),
>
    decreases n,
{
    if n == 0 {
        rzero()
    } else {
        sadd(
            eq_weighted(layers, values, (n - 1) as nat),
            smul(sconst(HALF_DEGREE as nat, tensor_val(layers, n - 1)), values[n - 1]),
        )
    }
}

/// `sum_i eq(point, i) * values[i]`: the value of the claim
/// `eq(point) * witness_in(region)` computed from the region's public data.
pub fn eq_weighted_sum(point: &[QuadraticExtension], values: &[RingElement]) -> (r: RingElement)
    requires
        qe_all_wf(point@),
        pow2(point@.len() as nat) <= usize::MAX,
        values@.len() == pow2(point@.len() as nat),
        vec_wf(values@),
    ensures
        r.wf(),
        r@ == eq_weighted(qe_seq(point@), vec_view(values@), values@.len() as nat),
{
    let expanded = expand_field_tensor(point);
    let mut acc = zero();
    let mut i: usize = 0;
    while i < values.len()
        invariant
            i <= values@.len(),
            expanded@.len() == values@.len(),
            vec_wf(values@),
            forall|t: int|
                0 <= t < expanded@.len() ==> (#[trigger] expanded@[t]).wf() && expanded@[t]@
                    == sconst(HALF_DEGREE as nat, tensor_val(qe_seq(point@), t)),
            acc.wf(),
            acc@ == eq_weighted(qe_seq(point@), vec_view(values@), i as nat),
        decreases values@.len() - i,
    {
        let term = expanded[i].mul(&values[i]);
        acc = acc.add(&term);
        i = i + 1;
    }
    acc
}


/// A transcript-drawn point, one coordinate per variable; prover and verifier
/// draw it at the same transcript state.
pub fn challenge_point(transcript: &mut HashWrapper, num_vars: usize) -> (r: Vec<QuadraticExtension>)
    requires
        old(transcript)@.squeezed + num_vars < u64::MAX,
    ensures
        r@.len() == num_vars,
        qe_all_wf(r@),
        forall|k: int|
            0 <= k < num_vars ==> #[trigger] r@[k]@ == challenge_at(
                old(transcript)@.absorbed,
                old(transcript)@.squeezed + k as nat,
            ),
        final(transcript)@.absorbed == old(transcript)@.absorbed,
        final(transcript)@.squeezed == old(transcript)@.squeezed + num_vars,
{
    sample_qe_layers(transcript, num_vars)
}


/// Regions pushed one after the other are each aligned to their own length and
/// do not overlap: the second starts at or after the end of the first.
pub proof fn lemma_consecutive_regions(cursor: int, len1: int, len2: int)
    requires
        cursor >= 0,
        len1 > 0,
        len2 > 0,
    ensures
        round_up(cursor, len1) % len1 == 0,
        cursor <= round_up(cursor, len1),
        round_up(round_up(cursor, len1) + len1, len2) % len2 == 0,
        round_up(cursor, len1) + len1 <= round_up(round_up(cursor, len1) + len1, len2),
{
    lemma_round_up(cursor, len1);
    lemma_round_up(round_up(cursor, len1) + len1, len2);
}


/// Conjugation commutes with evaluation: at every point of the cube, the
/// conjugated expression takes the conjugate of the expression's value.
pub proof fn lemma_conjugate_eval(
    e: ClaimExpr,
    r: ClaimExpr,
    data: Seq<Seq<(int, int)>>,
    index: int,
    total: nat,
)
    requires
        conj_rel(e, r),
        consts_ok(e),
        rwf(data[index]),
    ensures
        rwf(eval_expr(e, data, index, total)),
        eval_expr(r, data, index, total) == sconj(eval_expr(e, data, index, total)),
    decreases e,
{
    lemma_consts_wf();
    lemma_sconj_wf(data[index]);
    lemma_sconj_zero_involution(data[index]);
    match e {
        ClaimExpr::Factor(ClaimFactor::Public(_)) => {},
        ClaimExpr::Factor(_) => {},
        ClaimExpr::Constant(c) => {
            lemma_sconj_wf(c@);
        },
        ClaimExpr::Scale(c, x) => {
            if let ClaimExpr::Scale(d, y) = r {
                lemma_conjugate_eval(*x, *y, data, index, total);
                lemma_rops_wf(eval_expr(*x, data, index, total), c@);
                lemma_sconj_mul(eval_expr(*x, data, index, total), c@);
            }
        },
        ClaimExpr::Product(a, b) => {
            if let ClaimExpr::Product(c, d) = r {
                lemma_conjugate_eval(*a, *c, data, index, total);
                lemma_conjugate_eval(*b, *d, data, index, total);
                lemma_rops_wf(eval_expr(*a, data, index, total), eval_expr(*b, data, index, total));
                lemma_sconj_mul(eval_expr(*a, data, index, total), eval_expr(*b, data, index, total));
            }
        },
        ClaimExpr::Sum(a, b) => {
            if let ClaimExpr::Sum(c, d) = r {
                lemma_conjugate_eval(*a, *c, data, index, total);
                lemma_conjugate_eval(*b, *d, data, index, total);
                lemma_rops_wf(eval_expr(*a, data, index, total), eval_expr(*b, data, index, total));
                lemma_sconj_add(eval_expr(*a, data, index, total), eval_expr(*b, data, index, total));
            }
        },
        ClaimExpr::Diff(a, b) => {
            if let ClaimExpr::Diff(c, d) = r {
                lemma_conjugate_eval(*a, *c, data, index, total);
                lemma_conjugate_eval(*b, *d, data, index, total);
                lemma_rops_wf(eval_expr(*a, data, index, total), eval_expr(*b, data, index, total));
                lemma_sconj_sub(eval_expr(*a, data, index, total), eval_expr(*b, data, index, total));
            }
        },
    }
}


/// Conjugation commutes with the sum over the cube: the conjugated claim sums
/// to the conjugate of the claim's sum.
pub proof fn lemma_conjugate_sum(
    e: ClaimExpr,
    r: ClaimExpr,
    data: Seq<Seq<(int, int)>>,
    total: nat,
    n: nat,
)
    requires
        conj_rel(e, r),
        consts_ok(e),
        n <= data.len(),
        forall|i: int| 0 <= i < n ==> #[trigger] rwf(data[i]),
    ensures
        rwf(cube_sum(e, data, total, n)),
        cube_sum(r, data, total, n) == sconj(cube_sum(e, data, total, n)),
    decreases n,
{
    lemma_consts_wf();
    if n == 0 {
        lemma_sconj_zero_involution(rzero());
    } else {
        lemma_conjugate_sum(e, r, data, total, (n - 1) as nat);
        assert(rwf(data[n - 1]));
        lemma_conjugate_eval(e, r, data, n - 1, total);
        lemma_rops_wf(cube_sum(e, data, total, (n - 1) as nat), eval_expr(e, data, n - 1, total));
        lemma_sconj_add(cube_sum(e, data, total, (n - 1) as nat), eval_expr(e, data, n - 1, total));
    }
}


/// The embedding of integers into the extension is multiplicative.
proof fn lemma_pconst_mul(x: int, y: int)
    ensures
        pmul(pconst(x), pconst(y)) == pconst(x * y),
{
    lemma_mod_lin(x, 0, fmod(y), 0);
    lemma_mod_lin(y, 0, x, 0);
    assert(fmod(x) * fmod(y) - 0 * 0 == fmod(x) * fmod(y) + fmod(0) * 0) by (nonlinear_arith);
    vstd::arithmetic::div_mod::lemma_small_mod(0, crate::common::field::q() as nat);
    assert(fmod(x) * 0 + 0 * fmod(y) == 0) by (nonlinear_arith);
    assert(x * fmod(y) + 0 * 0 == x * fmod(y)) by (nonlinear_arith);
    assert(x * y + 0 * 0 == x * y) by (nonlinear_arith);
    assert(fmod(x) * fmod(y) + 0 * 0 == fmod(x) * fmod(y)) by (nonlinear_arith);
}

/// `scale * (1 - a) = 1` and `scale * a = w` for a weighted layer `a` with
/// `a * (1 + w) = w` and `scale = 1 + w`.
proof fn lemma_weighted_factor(a: (int, int), w: int, bit: int)
    requires
        preduced(a),
        a.1 == 0,
        fmod(a.0 * fmod(1 + w)) == fmod(w),
    ensures
        pmul(pconst(fmod(1 + w)), layer_factor(a, bit)) == pconst(
            if bit == 1 {
                w
            } else {
                1
            },
        ),
{
    let s0 = fmod(1 + w);
    lemma_mod_add_sub(1 + w, 0);
    lemma_fmod_pair_fixed(a);
    vstd::arithmetic::div_mod::lemma_small_mod(0, crate::common::field::q() as nat);
    vstd::arithmetic::div_mod::lemma_small_mod(1, crate::common::field::q() as nat);
    assert(pconst(s0) == (s0, 0int));
    if bit == 1 {
        assert(layer_factor(a, bit) == a);
        assert(s0 * a.0 - 0 * 0 == a.0 * s0) by (nonlinear_arith);
        assert(s0 * 0 + 0 * a.0 == 0) by (nonlinear_arith);
    } else {
        let f = psub((1, 0), a);
        assert(f == (fmod(1 - a.0), 0int));
        lemma_mod_lin(1 - a.0, 0, s0, 0);
        assert(s0 * fmod(1 - a.0) - 0 * 0 == s0 * fmod(1 - a.0) + 0 * fmod(0)) by (nonlinear_arith);
        assert(s0 * (1 - a.0) + 0 * 0 == s0 - a.0 * s0) by (nonlinear_arith);
        lemma_mod_add_sub(s0, a.0 * s0);
        lemma_mod_add_sub(s0, w);
        lemma_mod_add_sub(1 + w, w);
        assert(1 + w - w == 1);
        assert(s0 * 0 + 0 * fmod(1 - a.0) == 0) by (nonlinear_arith);
    }
}

/// `(a b)(t f) = (b t)(a f)` for canonical factors.
proof fn lemma_rearrange(a: (int, int), b: (int, int), tp: (int, int), f: (int, int))
    requires
        preduced(a),
        preduced(b),
        preduced(tp),
        preduced(f),
    ensures
        pmul(pmul(a, b), pmul(tp, f)) == pmul(pmul(b, tp), pmul(a, f)),
{
    lemma_pops_reduced(a, b);
    lemma_pops_reduced(tp, f);
    lemma_pops_reduced(a, f);
    lemma_pops_reduced(b, tp);
    lemma_pops_reduced(pmul(b, tp), a);
    lemma_pmul_laws(pmul(a, b), tp, f);
    lemma_pmul_laws(a, b, tp);
    lemma_pmul_laws(b, tp, a);
    lemma_pmul_laws(pmul(b, tp), a, f);
    lemma_pmul_laws(a, pmul(b, tp), f);
    lemma_pmul_laws(a, b, pmul(tp, f));
}

/// With layers `a_j` satisfying `a_j (1 + w[n-1-j]) = w[n-1-j]`, the tensor
/// entry `i` scaled by `prod (1 + w[t])` is the product of the weights of the
/// bits set in `i`.
pub proof fn lemma_weighted_tensor(layers: Seq<(int, int)>, w: Seq<int>, i: int)
    requires
        layers.len() == w.len(),
        0 <= i,
        forall|j: int|
            0 <= j < layers.len() ==> #[trigger] preduced(layers[j]) && layers[j].1 == 0 && fmod(
                layers[j].0 * fmod(1 + w[layers.len() - 1 - j]),
            ) == fmod(w[layers.len() - 1 - j]),
    ensures
        pmul(pconst(scale_of(w)), tensor_val(layers, i)) == pconst(bit_product(w, i)),
    decreases layers.len(),
{
    let n = layers.len();
    vstd::arithmetic::div_mod::lemma_small_mod(1, crate::common::field::q() as nat);
    vstd::arithmetic::div_mod::lemma_small_mod(0, crate::common::field::q() as nat);
    if n == 0 {
        assert(pconst(1) == (1int, 0int));
        lemma_pmul_laws((1, 0), (1, 0), (1, 0));
    } else {
        let l2 = layers.drop_last();
        let w2 = w.drop_first();
        let last = layers.last();
        assert(last == layers[n - 1]);
        assert(preduced(layers[n - 1]));
        assert forall|j: int| 0 <= j < l2.len() implies #[trigger] preduced(l2[j]) && l2[j].1 == 0
            && fmod(l2[j].0 * fmod(1 + w2[l2.len() - 1 - j])) == fmod(w2[l2.len() - 1 - j]) by {
            assert(l2[j] == layers[j]);
            assert(preduced(layers[j]));
            assert(w2[l2.len() - 1 - j] == w[n - 1 - j]);
        }
        lemma_weighted_tensor(l2, w2, i / 2);
        let s0 = fmod(1 + w[0]);
        let sp = scale_of(w2);
        let tp = tensor_val(l2, i / 2);
        let f = layer_factor(last, i % 2);
        let bp = bit_product(w2, i / 2);
        let bitw = if i % 2 == 1 {
            w[0]
        } else {
            1
        };
        lemma_weighted_factor(last, w[0], i % 2);
        lemma_pconst_mul(s0, sp);
        lemma_tensor_val_reduced(l2, i / 2);
        lemma_layer_factor_reduced(last, i % 2);
        let a = pconst(s0);
        let b = pconst(sp);
        lemma_mod_add_sub(s0, 0);
        lemma_mod_add_sub(sp, 0);
        lemma_rearrange(a, b, tp, f);
        assert(pmul(pconst(scale_of(w)), tensor_val(layers, i)) == pmul(pmul(a, b), pmul(tp, f)));
        lemma_pconst_mul(bp, bitw);
        lemma_pconst_mul(bitw, bp);
        vstd::arithmetic::mul::lemma_mul_is_commutative(bp, bitw);
    }
}

/// The bit-weights of `ratio` recompose powers: `prod_{bits t of i}
/// ratio^(2^t) = ratio^i`.
pub proof fn lemma_bit_product_powers(ratio: int, n: nat, i: int)
    requires
        0 <= i < pow2(n),
    ensures
        bit_product(bit_powers(ratio, n), i) == pow_q(ratio, i as nat),
    decreases n,
{
    let w = bit_powers(ratio, n);
    vstd::arithmetic::div_mod::lemma_small_mod(1, crate::common::field::q() as nat);
    if n == 0 {
        lemma2_to64();
        assert(i == 0);
        vstd::arithmetic::power::lemma_pow0(ratio);
    } else {
        lemma_pow2_unfold(n);
        let r2 = ratio * ratio;
        assert forall|t: int| 0 <= t < n - 1 implies #[trigger] w.drop_first()[t] == bit_powers(
            r2,
            (n - 1) as nat,
        )[t] by {
            vstd::arithmetic::power::lemma_pow_multiplies(ratio, 2, pow2(t as nat));
            vstd::arithmetic::power::lemma_square_is_pow2(ratio);
            lemma_pow2_unfold((t + 1) as nat);
            assert(2 * pow2(t as nat) == pow2((t + 1) as nat));
        }
        assert(w.drop_first() =~= bit_powers(r2, (n - 1) as nat));
        lemma_bit_product_powers(r2, (n - 1) as nat, i / 2);
        // ratio^i = ratio^(i % 2) * (ratio^2)^(i / 2)
        let e = (i / 2) as nat;
        vstd::arithmetic::power::lemma_pow_multiplies(ratio, 2, e);
        vstd::arithmetic::power::lemma_square_is_pow2(ratio);
        vstd::arithmetic::power::lemma_pow_adds(ratio, (i % 2) as nat, 2 * e);
        assert(i == i % 2 + 2 * e);
        vstd::arithmetic::power::lemma_pow1(ratio);
        vstd::arithmetic::power::lemma_pow0(ratio);
        assert(w[0] == pow_q(ratio, 1)) by {
            lemma2_to64();
        }
        let bitw = if i % 2 == 1 {
            w[0]
        } else {
            1
        };
        let pr2 = vstd::arithmetic::power::pow(r2, e);
        vstd::arithmetic::div_mod::lemma_mul_mod_noop_right(bitw, pr2, crate::common::field::q());
        vstd::arithmetic::div_mod::lemma_mul_mod_noop_left(ratio, pr2, crate::common::field::q());
        assert(fmod(bitw * pr2) == fmod(vstd::arithmetic::power::pow(ratio, (i % 2) as nat) * pr2));
    }
}

/// The weight of `powers(ratio, n)` at index `i < 2^n` is `ratio^i`: its
/// coefficient times its eq-tensor entry.
pub proof fn lemma_powers_weight(ratio: int, n: nat, layers: Seq<QuadraticExtension>, i: int)
    requires
        layers.len() == n,
        qe_all_wf(layers),
        forall|j: int|
            0 <= j < n ==> (#[trigger] layers[j])@.1 == 0 && fmod(
                layers[j]@.0 * fmod(1 + bit_power(ratio, (n - 1 - j) as nat)),
            ) == bit_power(ratio, (n - 1 - j) as nat),
        0 <= i < pow2(n),
    ensures
        pmul(pconst(scale_of(bit_powers(ratio, n))), tensor_val(qe_seq(layers), i)) == pconst(
            pow_q(ratio, i as nat),
        ),
{
    let w = bit_powers(ratio, n);
    let ls = qe_seq(layers);
    assert forall|j: int| 0 <= j < ls.len() implies #[trigger] preduced(ls[j]) && ls[j].1 == 0
        && fmod(ls[j].0 * fmod(1 + w[ls.len() - 1 - j])) == fmod(w[ls.len() - 1 - j]) by {
        assert(layers[j].wf());
        assert(layers[j]@.1 == 0);
        lemma_mod_add_sub(bit_power(ratio, (n - 1 - j) as nat), 0);
        assert(w[ls.len() - 1 - j] == bit_power(ratio, (n - 1 - j) as nat));
        lemma_mod_add_sub(vstd::arithmetic::power::pow(ratio, pow2((n - 1 - j) as nat)), 0);
    }
    lemma_weighted_tensor(ls, w, i);
    lemma_bit_product_powers(ratio, n, i);
    lemma_mod_add_sub(vstd::arithmetic::power::pow(ratio, i as nat), 0);
}

} // verus!
