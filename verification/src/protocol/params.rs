//! Parameter sets of the protocol chain.
use vstd::prelude::*;
use vstd::arithmetic::power2::{lemma_pow2_pos, pow2};
use crate::common::bits::{ilog2, is_pow2, lemma_log2_lt, lemma_log2_pow2, lemma_pow2_log2, log2, pow2_usize};
use crate::common::config::DEGREE;
use crate::protocol::config::SimpleConfig;
use crate::protocol::config_generator::{AuxConfig, AuxProjection, AuxRecursionConfig, AuxSumcheckConfig};

verus! {

/// A commitment's block-diagonal shape: `blocks` equal blocks of its input,
/// each met by the same `rank / blocks` key rows.
#[derive(Clone, Copy, Debug, PartialEq, Eq)]
pub struct Blocks {
    pub blocks: usize,
    pub rank: usize,
}

/// The block-diagonal shape with `blocks` blocks and `rank` rows.
pub fn shape(blocks: usize, rank: usize) -> (r: Blocks)
    ensures
        r == (Blocks { blocks, rank }),
{
    Blocks { blocks, rank }
}

/// The size class of a parameter set.
#[derive(Clone, Copy, Debug, PartialEq, Eq)]
pub enum SizeConfig {
    Micro,
    Tiny,
    Small,
    Medium,
    NarrowLarge,
    Large,
}

impl SizeConfig {
    /// The value for this size class; the three smallest classes share the
    /// small value.
    pub fn pick<T>(self, small: T, medium: T, narrow_large: T, large: T) -> (r: T)
        ensures
            r == match self {
                SizeConfig::Micro | SizeConfig::Tiny | SizeConfig::Small => small,
                SizeConfig::Medium => medium,
                SizeConfig::NarrowLarge => narrow_large,
                SizeConfig::Large => large,
            },
    {
        match self {
            SizeConfig::Micro | SizeConfig::Tiny | SizeConfig::Small => small,
            SizeConfig::Medium => medium,
            SizeConfig::NarrowLarge => narrow_large,
            SizeConfig::Large => large,
        }
    }
}

/// The size class this library is built for: the default, medium set.
pub fn compiled_size() -> (r: SizeConfig)
    ensures
        r == SizeConfig::Medium,
{
    SizeConfig::Medium
}

/// The parameters of the initial witness.
pub struct InitialWitnessParams {
    pub height: usize,
    pub width: usize,
    pub decomposition_base_log: usize,
    pub decomposition_chunks: usize,
    pub initial_norm_log: usize,
}

/// Dropping `drop` column bits of a `2^a x 2^b` witness of `2^7`-coefficient
/// entries leaves `2^(b - drop)` columns, whose coefficients number
/// `2^(a + b + 7 - drop)`.
proof fn lemma_cols_for_target(h: nat, w: nat, target: nat)
    requires
        is_pow2(h),
        is_pow2(w),
        target <= log2((h * w * DEGREE) as nat),
        log2((h * w * DEGREE) as nat) - target < log2(w),
    ensures
        (w / pow2((log2((h * w * DEGREE) as nat) - target) as nat)) * h * DEGREE == pow2(target),
        w / pow2((log2((h * w * DEGREE) as nat) - target) as nat) >= 2,
{
    let a = log2(h);
    let b = log2(w);
    lemma_pow2_log2(h);
    lemma_pow2_log2(w);
    vstd::arithmetic::power2::lemma2_to64();
    assert(DEGREE == pow2(7));
    vstd::arithmetic::power2::lemma_pow2_adds(a, b);
    vstd::arithmetic::power2::lemma_pow2_adds(a + b, 7);
    assert(h * w * DEGREE == pow2(a + b + 7));
    lemma_log2_pow2(a + b + 7);
    let drop = (a + b + 7 - target) as nat;
    assert(drop < b);
    vstd::arithmetic::power2::lemma_pow2_adds((b - drop) as nat, drop);
    assert(pow2(b) == pow2((b - drop) as nat) * pow2(drop));
    vstd::arithmetic::power2::lemma_pow2_pos(drop);
    vstd::arithmetic::div_mod::lemma_div_by_multiple(pow2((b - drop) as nat) as int, pow2(drop) as int);
    assert(w / pow2(drop) == pow2((b - drop) as nat));
    vstd::arithmetic::power2::lemma_pow2_adds((b - drop) as nat, a);
    vstd::arithmetic::power2::lemma_pow2_adds(((b - drop) + a) as nat, 7);
    assert(target == (b - drop) + a + 7);
    assert(pow2((b - drop) as nat) * h * DEGREE == pow2(target)) by (nonlinear_arith)
        requires
            pow2((b - drop) as nat) * pow2(a) == pow2(((b - drop) + a) as nat),
            pow2(((b - drop) + a) as nat) * pow2(7) == pow2(target),
            h == pow2(a),
            DEGREE == pow2(7),
    ;
    vstd::arithmetic::power2::lemma_pow2_strictly_increases(0, (b - drop) as nat);
    assert(pow2(0) == 1);
    assert(pow2((b - drop) as nat) >= 2) by {
        vstd::arithmetic::power2::lemma_pow2_unfold((b - drop) as nat);
        vstd::arithmetic::power2::lemma_pow2_pos((b - drop - 1) as nat);
    }
}

/// Sizing rule for targets between compiled parameter sets: keep the compiled
/// set's height and drop column bits. Returns the number of witness columns to
/// use; the remaining columns stay zero. The target must fit the set, and
/// leave it at least two columns.
pub fn witness_cols_for_target(
    witness_height: usize,
    witness_width: usize,
    target_log2_zq_coeffs: usize,
) -> (r: usize)
    requires
        0 < witness_height * witness_width * DEGREE <= usize::MAX,
        target_log2_zq_coeffs <= log2((witness_height * witness_width * DEGREE) as nat),
        log2((witness_height * witness_width * DEGREE) as nat) - target_log2_zq_coeffs < log2(
            witness_width as nat,
        ),
    ensures
        r == witness_width as int / pow2(
            (log2((witness_height * witness_width * DEGREE) as nat) - target_log2_zq_coeffs) as nat,
        ) as int,
        is_pow2(witness_height as nat) && is_pow2(witness_width as nat) ==> r * witness_height
            * DEGREE == pow2(target_log2_zq_coeffs as nat) && r >= 2,
{
    proof {
        if is_pow2(witness_height as nat) && is_pow2(witness_width as nat) {
            lemma_cols_for_target(witness_height as nat, witness_width as nat, target_log2_zq_coeffs as nat);
        }
    }
    let full_log2 = ilog2(witness_height * witness_width * DEGREE);
    let drop = full_log2 - target_log2_zq_coeffs;
    proof {
        vstd::arithmetic::power2::lemma2_to64();
        if witness_width == 0 {
            assert(witness_height * witness_width * DEGREE == 0) by (nonlinear_arith)
                requires
                    witness_width == 0,
            ;
        }
        if pow2(drop as nat) > witness_width && drop >= 1 {
            lemma_log2_lt(witness_width as nat, drop as nat);
        }
        lemma_pow2_pos(drop as nat);
    }
    witness_width / pow2_usize(drop)
}

} // verus!

verus! {

/// The value of a size class among the four choices, as [`SizeConfig::pick`]
/// takes it.
pub open spec fn pick_spec<T>(size: SizeConfig, small: T, medium: T, narrow_large: T, large: T) -> T {
    match size {
        SizeConfig::Micro | SizeConfig::Tiny | SizeConfig::Small => small,
        SizeConfig::Medium => medium,
        SizeConfig::NarrowLarge => narrow_large,
        SizeConfig::Large => large,
    }
}

/// The last recursion level every chain ends in: eleven base-`2^5` digits
/// under one key row.
pub open spec fn last_level() -> AuxRecursionConfig {
    AuxRecursionConfig {
        decomposition_base_log: 5,
        decomposition_chunks: 11,
        rank: 1,
        diag_blocks: 1,
        next: None,
    }
}

/// A recursion level of the given decomposition and shape, followed by
/// [`last_level`].
pub open spec fn level(base_log: usize, chunks: usize, s: Blocks) -> AuxRecursionConfig {
    AuxRecursionConfig {
        decomposition_base_log: base_log,
        decomposition_chunks: chunks,
        rank: s.rank,
        diag_blocks: s.blocks,
        next: Some(Box::new(last_level())),
    }
}

/// A recursion level of the given decomposition and shape with nothing
/// after it.
pub open spec fn final_level(base_log: usize, chunks: usize, s: Blocks) -> AuxRecursionConfig {
    AuxRecursionConfig {
        decomposition_base_log: base_log,
        decomposition_chunks: chunks,
        rank: s.rank,
        diag_blocks: s.blocks,
        next: None,
    }
}

/// The closing simple round.
pub open spec fn p_last_params() -> SimpleConfig {
    SimpleConfig {
        witness_height: 256,
        witness_width: 4,
        projection_ratio: 128,
        projection_height: 256,
        projection_nof_batches: 2,
        basic_commitment_rank: 4,
    }
}

/// The last sumcheck round of the chain.
pub open spec fn p_5_params() -> AuxSumcheckConfig {
    AuxSumcheckConfig {
        exact_projection_norm: false,
        witness_height: 256,
        witness_width: 8,
        projection_ratio: 64,
        projection_height: 256,
        basic_commitment_rank: 4,
        basic_commitment_diag_blocks: 1,
        nof_openings: 2,
        commitment_recursion: final_level(8, 7, Blocks { blocks: 1, rank: 2 }),
        opening_recursion: final_level(8, 7, Blocks { blocks: 1, rank: 2 }),
        projection_recursion: AuxProjection::Fine {
            nof_batches: 2,
            recursion_constant_term: final_level(9, 2, Blocks { blocks: 1, rank: 2 }),
            recursion_batched_projection: final_level(8, 7, Blocks { blocks: 1, rank: 2 }),
        },
        witness_decomposition_chunks: 2,
        witness_decomposition_base_log: 7,
        next: Some(Box::new(AuxConfig::Simple(p_last_params()))),
    }
}

/// The second-to-last sumcheck round.
pub open spec fn p_4_params() -> AuxSumcheckConfig {
    AuxSumcheckConfig {
        exact_projection_norm: false,
        witness_height: 512,
        witness_width: 8,
        projection_ratio: 32,
        projection_height: 256,
        basic_commitment_rank: 5,
        basic_commitment_diag_blocks: 1,
        nof_openings: 2,
        commitment_recursion: level(7, 8, Blocks { blocks: 2, rank: 4 }),
        opening_recursion: level(7, 8, Blocks { blocks: 2, rank: 4 }),
        projection_recursion: AuxProjection::Fine {
            nof_batches: 2,
            recursion_constant_term: level(9, 2, Blocks { blocks: 2, rank: 4 }),
            recursion_batched_projection: level(7, 8, Blocks { blocks: 2, rank: 4 }),
        },
        witness_decomposition_chunks: 2,
        witness_decomposition_base_log: 7,
        next: Some(Box::new(AuxConfig::Sumcheck(p_5_params()))),
    }
}

/// The round after the second parameter set.
pub open spec fn p_3_params() -> AuxSumcheckConfig {
    AuxSumcheckConfig {
        exact_projection_norm: false,
        witness_height: 256,
        witness_width: 32,
        projection_ratio: 32,
        projection_height: 256,
        basic_commitment_rank: 7,
        basic_commitment_diag_blocks: 1,
        nof_openings: 2,
        commitment_recursion: level(7, 8, Blocks { blocks: 4, rank: 8 }),
        opening_recursion: level(7, 8, Blocks { blocks: 2, rank: 4 }),
        projection_recursion: AuxProjection::Fine {
            nof_batches: 2,
            recursion_constant_term: level(10, 2, Blocks { blocks: 2, rank: 4 }),
            recursion_batched_projection: level(7, 8, Blocks { blocks: 2, rank: 4 }),
        },
        witness_decomposition_chunks: 2,
        witness_decomposition_base_log: 8,
        next: Some(Box::new(AuxConfig::Sumcheck(p_4_params()))),
    }
}

/// The shapes `(basic, commitment, opening, constant term, batched)` of
/// [`p_2_params`] per size class.
pub open spec fn p_2_shapes(size: SizeConfig) -> (Blocks, Blocks, Blocks, Blocks, Blocks) {
    match size {
        SizeConfig::Micro => (
            Blocks { blocks: 2, rank: 16 },
            Blocks { blocks: 16, rank: 32 },
            Blocks { blocks: 4, rank: 8 },
            Blocks { blocks: 4, rank: 8 },
            Blocks { blocks: 4, rank: 8 },
        ),
        SizeConfig::Tiny | SizeConfig::Small => (
            Blocks { blocks: 2, rank: 14 },
            Blocks { blocks: 4, rank: 8 },
            Blocks { blocks: 4, rank: 8 },
            Blocks { blocks: 8, rank: 16 },
            Blocks { blocks: 4, rank: 8 },
        ),
        SizeConfig::Medium => (
            Blocks { blocks: 1, rank: 6 },
            Blocks { blocks: 2, rank: 4 },
            Blocks { blocks: 4, rank: 8 },
            Blocks { blocks: 8, rank: 16 },
            Blocks { blocks: 4, rank: 8 },
        ),
        SizeConfig::Large => (
            Blocks { blocks: 1, rank: 6 },
            Blocks { blocks: 2, rank: 4 },
            Blocks { blocks: 4, rank: 8 },
            Blocks { blocks: 4, rank: 8 },
            Blocks { blocks: 4, rank: 8 },
        ),
        SizeConfig::NarrowLarge => (
            Blocks { blocks: 1, rank: 6 },
            Blocks { blocks: 1, rank: 2 },
            Blocks { blocks: 1, rank: 2 },
            Blocks { blocks: 1, rank: 2 },
            Blocks { blocks: 1, rank: 2 },
        ),
    }
}

/// The second parameter set of the chain.
pub open spec fn p_2_params(size: SizeConfig) -> AuxSumcheckConfig {
    let s = p_2_shapes(size);
    AuxSumcheckConfig {
        exact_projection_norm: false,
        witness_height: match size {
            SizeConfig::Micro => 512,
            _ => pick_spec(size, 1024usize, 1024, 2048, 2048),
        },
        witness_width: 32,
        projection_ratio: pick_spec(size, 64usize, 32, 256, 256),
        projection_height: 256,
        basic_commitment_rank: s.0.rank,
        basic_commitment_diag_blocks: s.0.blocks,
        nof_openings: 2,
        commitment_recursion: level(7, 8, s.1),
        opening_recursion: level(7, 8, s.2),
        projection_recursion: AuxProjection::Fine {
            nof_batches: 2,
            recursion_constant_term: level(9, 2, s.3),
            recursion_batched_projection: level(7, 8, s.4),
        },
        witness_decomposition_chunks: 2,
        witness_decomposition_base_log: 8,
        next: Some(Box::new(AuxConfig::Sumcheck(p_3_params()))),
    }
}

/// The shapes `(basic, commitment, opening, projection)` of [`p_1_params`]
/// per size class.
pub open spec fn p_1_shapes(size: SizeConfig) -> (Blocks, Blocks, Blocks, Blocks) {
    match size {
        SizeConfig::Small => (
            Blocks { blocks: 16, rank: 128 },
            Blocks { blocks: 16, rank: 32 },
            Blocks { blocks: 2, rank: 4 },
            Blocks { blocks: 16, rank: 32 },
        ),
        SizeConfig::Medium => (
            Blocks { blocks: 8, rank: 56 },
            Blocks { blocks: 4, rank: 8 },
            Blocks { blocks: 4, rank: 8 },
            Blocks { blocks: 16, rank: 32 },
        ),
        SizeConfig::Large => (
            Blocks { blocks: 16, rank: 112 },
            Blocks { blocks: 4, rank: 8 },
            Blocks { blocks: 4, rank: 8 },
            Blocks { blocks: 32, rank: 64 },
        ),
        _ => (
            Blocks { blocks: 1, rank: 6 },
            Blocks { blocks: 1, rank: 4 },
            Blocks { blocks: 1, rank: 2 },
            Blocks { blocks: 1, rank: 2 },
        ),
    }
}

/// The first parameter set after the root.
pub open spec fn p_1_params(size: SizeConfig) -> AuxSumcheckConfig {
    let s = p_1_shapes(size);
    AuxSumcheckConfig {
        exact_projection_norm: false,
        witness_height: pick_spec(size, 8192usize, 8192, 16384, 16384),
        witness_width: pick_spec(size, 8usize, 16, 16, 16),
        projection_ratio: 32,
        projection_height: 256,
        basic_commitment_rank: s.0.rank,
        basic_commitment_diag_blocks: s.0.blocks,
        nof_openings: 2,
        commitment_recursion: level(7, 8, s.1),
        opening_recursion: level(7, 8, s.2),
        projection_recursion: AuxProjection::Coarse(level(9, 2, s.3)),
        witness_decomposition_chunks: 2,
        witness_decomposition_base_log: 7,
        next: Some(Box::new(AuxConfig::Sumcheck(p_2_params(size)))),
    }
}

/// The intermediate parameter set between the exact-norm root and
/// [`p_1_params`].
pub open spec fn p_int_params(size: SizeConfig) -> AuxSumcheckConfig {
    AuxSumcheckConfig {
        exact_projection_norm: true,
        witness_height: pick_spec(size, 16384usize, 32768, 65536, 65536),
        witness_width: pick_spec(size, 8usize, 16, 16, 32),
        projection_ratio: 32,
        projection_height: 256,
        basic_commitment_rank: pick_spec(size, 5usize, 5, 6, 6),
        basic_commitment_diag_blocks: 1,
        nof_openings: 2,
        commitment_recursion: level(7, 8, Blocks { blocks: 1, rank: pick_spec(size, 2usize, 2, 4, 4) }),
        opening_recursion: level(7, 8, Blocks { blocks: 1, rank: 2 }),
        projection_recursion: AuxProjection::Coarse(level(9, 2, Blocks { blocks: 1, rank: 2 })),
        witness_decomposition_chunks: 2,
        witness_decomposition_base_log: 7,
        next: Some(Box::new(AuxConfig::Sumcheck(p_1_params(size)))),
    }
}

/// The root parameter set of the exact-norm chain.
pub open spec fn p_exact_norm_root_aux_params(size: SizeConfig, nof_openings: usize) -> AuxSumcheckConfig {
    AuxSumcheckConfig {
        exact_projection_norm: true,
        witness_height: pick_spec(size, 8192usize, 16384, 32768, 32768),
        witness_width: pick_spec(size, 128usize, 256, 256, 512),
        projection_ratio: 32,
        projection_height: 256,
        basic_commitment_rank: 6,
        basic_commitment_diag_blocks: 1,
        nof_openings,
        commitment_recursion: level(7, 8, Blocks { blocks: 1, rank: 2 }),
        opening_recursion: level(7, 8, Blocks { blocks: 1, rank: 2 }),
        projection_recursion: AuxProjection::Coarse(level(8, 2, Blocks { blocks: 1, rank: 2 })),
        witness_decomposition_chunks: 4,
        witness_decomposition_base_log: pick_spec(size, 4usize, 4, 4, 7),
        next: Some(Box::new(AuxConfig::Sumcheck(p_int_params(size)))),
    }
}

/// The shapes `(basic, commitment, opening)` of [`p_root_aux_params`] per
/// size class.
pub open spec fn p_root_aux_shapes(size: SizeConfig) -> (Blocks, Blocks, Blocks) {
    match size {
        SizeConfig::Small | SizeConfig::Medium => (
            Blocks { blocks: 2, rank: 26 },
            Blocks { blocks: 4, rank: 8 },
            Blocks { blocks: 8, rank: 16 },
        ),
        SizeConfig::Large => (
            Blocks { blocks: 2, rank: 30 },
            Blocks { blocks: 8, rank: 32 },
            Blocks { blocks: 16, rank: 64 },
        ),
        _ => (Blocks { blocks: 1, rank: 10 }, Blocks { blocks: 1, rank: 4 }, Blocks { blocks: 1, rank: 4 }),
    }
}

/// The root parameter set of the plain chain.
pub open spec fn p_root_aux_params(size: SizeConfig, nof_openings: usize) -> AuxSumcheckConfig {
    let s = p_root_aux_shapes(size);
    AuxSumcheckConfig {
        exact_projection_norm: false,
        witness_height: pick_spec(size, 8192usize, 16384, 32768, 32768),
        witness_width: pick_spec(size, 128usize, 256, 256, 512),
        projection_ratio: 1,
        projection_height: 256,
        basic_commitment_rank: s.0.rank,
        basic_commitment_diag_blocks: s.0.blocks,
        nof_openings,
        commitment_recursion: level(7, 8, s.1),
        opening_recursion: level(7, 8, s.2),
        projection_recursion: AuxProjection::Skip,
        witness_decomposition_chunks: 4,
        witness_decomposition_base_log: pick_spec(size, 6usize, 6, 6, 7),
        next: Some(Box::new(AuxConfig::Sumcheck(p_1_params(size)))),
    }
}

/// The root parameter set of the short chains, which go straight to
/// [`p_2_params`].
pub open spec fn p_root_aux_short_params(size: SizeConfig, nof_openings: usize) -> AuxSumcheckConfig {
    let tiny = size is Tiny;
    let (basic, commitment, opening) = if tiny {
        (Blocks { blocks: 1, rank: 16 }, Blocks { blocks: 32, rank: 64 }, Blocks { blocks: 8, rank: 16 })
    } else {
        (Blocks { blocks: 1, rank: 13 }, Blocks { blocks: 4, rank: 8 }, Blocks { blocks: 4, rank: 8 })
    };
    AuxSumcheckConfig {
        exact_projection_norm: false,
        witness_height: if tiny { 2048 } else { 1024 },
        witness_width: if tiny { 128 } else { 64 },
        projection_ratio: 1,
        projection_height: 256,
        basic_commitment_rank: basic.rank,
        basic_commitment_diag_blocks: basic.blocks,
        nof_openings,
        commitment_recursion: level(7, 8, commitment),
        opening_recursion: level(7, 8, opening),
        projection_recursion: AuxProjection::Skip,
        witness_decomposition_chunks: 4,
        witness_decomposition_base_log: 6,
        next: Some(Box::new(AuxConfig::Sumcheck(p_2_params(size)))),
    }
}

/// The last recursion level every chain ends in.
pub fn decomp_11_last_level() -> (r: AuxRecursionConfig)
    ensures
        r == last_level(),
{
    AuxRecursionConfig {
        decomposition_base_log: 5,
        decomposition_chunks: 11,
        rank: 1,
        diag_blocks: 1,
        next: None,
    }
}

/// A recursion level of the given decomposition and shape, followed by the
/// last level.
fn tail_level(base_log: usize, chunks: usize, s: Blocks) -> (r: AuxRecursionConfig)
    ensures
        r == level(base_log, chunks, s),
{
    AuxRecursionConfig {
        decomposition_base_log: base_log,
        decomposition_chunks: chunks,
        rank: s.rank,
        diag_blocks: s.blocks,
        next: Some(Box::new(decomp_11_last_level())),
    }
}

/// A recursion level of the given decomposition and shape with nothing after
/// it.
fn end_level(base_log: usize, chunks: usize, s: Blocks) -> (r: AuxRecursionConfig)
    ensures
        r == final_level(base_log, chunks, s),
{
    AuxRecursionConfig {
        decomposition_base_log: base_log,
        decomposition_chunks: chunks,
        rank: s.rank,
        diag_blocks: s.blocks,
        next: None,
    }
}

/// The closing simple round.
pub fn p_last() -> (r: SimpleConfig)
    ensures
        r == p_last_params(),
{
    SimpleConfig {
        witness_height: 256,
        witness_width: 4,
        projection_ratio: 128,
        projection_height: 256,
        projection_nof_batches: 2,
        basic_commitment_rank: 4,
    }
}

/// The last sumcheck round of the chain.
pub fn p_5() -> (r: AuxSumcheckConfig)
    ensures
        r == p_5_params(),
{
    AuxSumcheckConfig {
        exact_projection_norm: false,
        witness_height: 256,
        witness_width: 8,
        projection_ratio: 64,
        projection_height: 256,
        basic_commitment_rank: 4,
        basic_commitment_diag_blocks: 1,
        nof_openings: 2,
        commitment_recursion: end_level(8, 7, shape(1, 2)),
        opening_recursion: end_level(8, 7, shape(1, 2)),
        projection_recursion: AuxProjection::Fine {
            nof_batches: 2,
            recursion_constant_term: end_level(9, 2, shape(1, 2)),
            recursion_batched_projection: end_level(8, 7, shape(1, 2)),
        },
        witness_decomposition_chunks: 2,
        witness_decomposition_base_log: 7,
        next: Some(Box::new(AuxConfig::Simple(p_last()))),
    }
}

/// The second-to-last sumcheck round.
pub fn p_4() -> (r: AuxSumcheckConfig)
    ensures
        r == p_4_params(),
{
    AuxSumcheckConfig {
        exact_projection_norm: false,
        witness_height: 512,
        witness_width: 8,
        projection_ratio: 32,
        projection_height: 256,
        basic_commitment_rank: 5,
        basic_commitment_diag_blocks: 1,
        nof_openings: 2,
        commitment_recursion: tail_level(7, 8, shape(2, 4)),
        opening_recursion: tail_level(7, 8, shape(2, 4)),
        projection_recursion: AuxProjection::Fine {
            nof_batches: 2,
            recursion_constant_term: tail_level(9, 2, shape(2, 4)),
            recursion_batched_projection: tail_level(7, 8, shape(2, 4)),
        },
        witness_decomposition_chunks: 2,
        witness_decomposition_base_log: 7,
        next: Some(Box::new(AuxConfig::Sumcheck(p_5()))),
    }
}

/// The round after the second parameter set.
pub fn p_3() -> (r: AuxSumcheckConfig)
    ensures
        r == p_3_params(),
{
    AuxSumcheckConfig {
        exact_projection_norm: false,
        witness_height: 256,
        witness_width: 32,
        projection_ratio: 32,
        projection_height: 256,
        basic_commitment_rank: 7,
        basic_commitment_diag_blocks: 1,
        nof_openings: 2,
        commitment_recursion: tail_level(7, 8, shape(4, 8)),
        opening_recursion: tail_level(7, 8, shape(2, 4)),
        projection_recursion: AuxProjection::Fine {
            nof_batches: 2,
            recursion_constant_term: tail_level(10, 2, shape(2, 4)),
            recursion_batched_projection: tail_level(7, 8, shape(2, 4)),
        },
        witness_decomposition_chunks: 2,
        witness_decomposition_base_log: 8,
        next: Some(Box::new(AuxConfig::Sumcheck(p_4()))),
    }
}

/// The second parameter set of the chain.
pub fn p_2(size: SizeConfig) -> (r: AuxSumcheckConfig)
    ensures
        r == p_2_params(size),
{
    let (basic, commitment, opening, constant_term, batched) = match size {
        SizeConfig::Micro => (shape(2, 16), shape(16, 32), shape(4, 8), shape(4, 8), shape(4, 8)),
        SizeConfig::Tiny | SizeConfig::Small => (
            shape(2, 14),
            shape(4, 8),
            shape(4, 8),
            shape(8, 16),
            shape(4, 8),
        ),
        SizeConfig::Medium => (shape(1, 6), shape(2, 4), shape(4, 8), shape(8, 16), shape(4, 8)),
        SizeConfig::Large => (shape(1, 6), shape(2, 4), shape(4, 8), shape(4, 8), shape(4, 8)),
        _ => (shape(1, 6), shape(1, 2), shape(1, 2), shape(1, 2), shape(1, 2)),
    };
    let witness_height = match size {
        SizeConfig::Micro => 512,
        _ => size.pick(1024usize, 1024, 2048, 2048),
    };
    AuxSumcheckConfig {
        exact_projection_norm: false,
        witness_height,
        witness_width: 32,
        projection_ratio: size.pick(64usize, 32, 256, 256),
        projection_height: 256,
        basic_commitment_rank: basic.rank,
        basic_commitment_diag_blocks: basic.blocks,
        nof_openings: 2,
        commitment_recursion: tail_level(7, 8, commitment),
        opening_recursion: tail_level(7, 8, opening),
        projection_recursion: AuxProjection::Fine {
            nof_batches: 2,
            recursion_constant_term: tail_level(9, 2, constant_term),
            recursion_batched_projection: tail_level(7, 8, batched),
        },
        witness_decomposition_chunks: 2,
        witness_decomposition_base_log: 8,
        next: Some(Box::new(AuxConfig::Sumcheck(p_3()))),
    }
}

/// The first parameter set after the root.
pub fn p_1(size: SizeConfig) -> (r: AuxSumcheckConfig)
    ensures
        r == p_1_params(size),
{
    let (basic, commitment, opening, projection) = match size {
        SizeConfig::Small => (shape(16, 128), shape(16, 32), shape(2, 4), shape(16, 32)),
        SizeConfig::Medium => (shape(8, 56), shape(4, 8), shape(4, 8), shape(16, 32)),
        SizeConfig::Large => (shape(16, 112), shape(4, 8), shape(4, 8), shape(32, 64)),
        _ => (shape(1, 6), shape(1, 4), shape(1, 2), shape(1, 2)),
    };
    AuxSumcheckConfig {
        exact_projection_norm: false,
        witness_height: size.pick(8192usize, 8192, 16384, 16384),
        witness_width: size.pick(8usize, 16, 16, 16),
        projection_ratio: 32,
        projection_height: 256,
        basic_commitment_rank: basic.rank,
        basic_commitment_diag_blocks: basic.blocks,
        nof_openings: 2,
        commitment_recursion: tail_level(7, 8, commitment),
        opening_recursion: tail_level(7, 8, opening),
        projection_recursion: AuxProjection::Coarse(tail_level(9, 2, projection)),
        witness_decomposition_chunks: 2,
        witness_decomposition_base_log: 7,
        next: Some(Box::new(AuxConfig::Sumcheck(p_2(size)))),
    }
}

/// The intermediate parameter set between the exact-norm root and [`p_1`].
pub fn p_int(size: SizeConfig) -> (r: AuxSumcheckConfig)
    ensures
        r == p_int_params(size),
{
    AuxSumcheckConfig {
        exact_projection_norm: true,
        witness_height: size.pick(16384usize, 32768, 65536, 65536),
        witness_width: size.pick(8usize, 16, 16, 32),
        projection_ratio: 32,
        projection_height: 256,
        basic_commitment_rank: size.pick(5usize, 5, 6, 6),
        basic_commitment_diag_blocks: 1,
        nof_openings: 2,
        commitment_recursion: tail_level(7, 8, shape(1, size.pick(2usize, 2, 4, 4))),
        opening_recursion: tail_level(7, 8, shape(1, 2)),
        projection_recursion: AuxProjection::Coarse(tail_level(9, 2, shape(1, 2))),
        witness_decomposition_chunks: 2,
        witness_decomposition_base_log: 7,
        next: Some(Box::new(AuxConfig::Sumcheck(p_1(size)))),
    }
}

/// The root parameter set of the exact-norm chain.
pub fn p_exact_norm_root_aux(size: SizeConfig, nof_openings: usize) -> (r: AuxSumcheckConfig)
    ensures
        r == p_exact_norm_root_aux_params(size, nof_openings),
{
    AuxSumcheckConfig {
        exact_projection_norm: true,
        witness_height: size.pick(8192usize, 16384, 32768, 32768),
        witness_width: size.pick(128usize, 256, 256, 512),
        projection_ratio: 32,
        projection_height: 256,
        basic_commitment_rank: 6,
        basic_commitment_diag_blocks: 1,
        nof_openings,
        commitment_recursion: tail_level(7, 8, shape(1, 2)),
        opening_recursion: tail_level(7, 8, shape(1, 2)),
        projection_recursion: AuxProjection::Coarse(tail_level(8, 2, shape(1, 2))),
        witness_decomposition_chunks: 4,
        witness_decomposition_base_log: size.pick(4usize, 4, 4, 7),
        next: Some(Box::new(AuxConfig::Sumcheck(p_int(size)))),
    }
}

/// The root parameter set of the plain chain.
pub fn p_root_aux(size: SizeConfig, nof_openings: usize) -> (r: AuxSumcheckConfig)
    ensures
        r == p_root_aux_params(size, nof_openings),
{
    let (basic, commitment, opening) = match size {
        SizeConfig::Small | SizeConfig::Medium => (shape(2, 26), shape(4, 8), shape(8, 16)),
        SizeConfig::Large => (shape(2, 30), shape(8, 32), shape(16, 64)),
        _ => (shape(1, 10), shape(1, 4), shape(1, 4)),
    };
    AuxSumcheckConfig {
        exact_projection_norm: false,
        witness_height: size.pick(8192usize, 16384, 32768, 32768),
        witness_width: size.pick(128usize, 256, 256, 512),
        projection_ratio: 1,
        projection_height: 256,
        basic_commitment_rank: basic.rank,
        basic_commitment_diag_blocks: basic.blocks,
        nof_openings,
        commitment_recursion: tail_level(7, 8, commitment),
        opening_recursion: tail_level(7, 8, opening),
        projection_recursion: AuxProjection::Skip,
        witness_decomposition_chunks: 4,
        witness_decomposition_base_log: size.pick(6usize, 6, 6, 7),
        next: Some(Box::new(AuxConfig::Sumcheck(p_1(size)))),
    }
}

/// The root parameter set of the short chains, which go straight to [`p_2`].
pub fn p_root_aux_short(size: SizeConfig, nof_openings: usize) -> (r: AuxSumcheckConfig)
    ensures
        r == p_root_aux_short_params(size, nof_openings),
{
    let tiny = matches!(size, SizeConfig::Tiny);
    let (basic, commitment, opening) = if tiny {
        (shape(1, 16), shape(32, 64), shape(8, 16))
    } else {
        (shape(1, 13), shape(4, 8), shape(4, 8))
    };
    AuxSumcheckConfig {
        exact_projection_norm: false,
        witness_height: if tiny { 2048 } else { 1024 },
        witness_width: if tiny { 128 } else { 64 },
        projection_ratio: 1,
        projection_height: 256,
        basic_commitment_rank: basic.rank,
        basic_commitment_diag_blocks: basic.blocks,
        nof_openings,
        commitment_recursion: tail_level(7, 8, commitment),
        opening_recursion: tail_level(7, 8, opening),
        projection_recursion: AuxProjection::Skip,
        witness_decomposition_chunks: 4,
        witness_decomposition_base_log: 6,
        next: Some(Box::new(AuxConfig::Sumcheck(p_2(size)))),
    }
}

/// The root parameter set of the plain chain, per size class: a `2^13 x 2^7` witness for the small classes, `2^14 x 2^8` for the medium one, `2^15 x 2^8` and `2^15 x 2^9` for the large ones; then the first parameter set of the same class.
pub proof fn lemma_p_root_aux_table(size: SizeConfig, nof_openings: usize)
    ensures
        size is Micro ==> ({
            let p = p_root_aux_params(size, nof_openings);
            p.exact_projection_norm == false && p.witness_height == 8192 && p.witness_width == 128 && p.projection_ratio == 1 && p.projection_height == 256 && p.basic_commitment_rank == 10 && p.basic_commitment_diag_blocks == 1 && p.nof_openings == nof_openings && p.commitment_recursion.decomposition_base_log == 7 && p.commitment_recursion.decomposition_chunks == 8 && p.commitment_recursion.rank == 4 && p.commitment_recursion.diag_blocks == 1 && p.commitment_recursion.next == Some(Box::new(AuxRecursionConfig { decomposition_base_log: 5, decomposition_chunks: 11, rank: 1, diag_blocks: 1, next: None })) && p.opening_recursion.decomposition_base_log == 7 && p.opening_recursion.decomposition_chunks == 8 && p.opening_recursion.rank == 4 && p.opening_recursion.diag_blocks == 1 && p.opening_recursion.next == Some(Box::new(AuxRecursionConfig { decomposition_base_log: 5, decomposition_chunks: 11, rank: 1, diag_blocks: 1, next: None })) && p.witness_decomposition_chunks == 4 && p.witness_decomposition_base_log == 6 && p.projection_recursion is Skip
        }),
        size is Tiny ==> ({
            let p = p_root_aux_params(size, nof_openings);
            p.exact_projection_norm == false && p.witness_height == 8192 && p.witness_width == 128 && p.projection_ratio == 1 && p.projection_height == 256 && p.basic_commitment_rank == 10 && p.basic_commitment_diag_blocks == 1 && p.nof_openings == nof_openings && p.commitment_recursion.decomposition_base_log == 7 && p.commitment_recursion.decomposition_chunks == 8 && p.commitment_recursion.rank == 4 && p.commitment_recursion.diag_blocks == 1 && p.commitment_recursion.next == Some(Box::new(AuxRecursionConfig { decomposition_base_log: 5, decomposition_chunks: 11, rank: 1, diag_blocks: 1, next: None })) && p.opening_recursion.decomposition_base_log == 7 && p.opening_recursion.decomposition_chunks == 8 && p.opening_recursion.rank == 4 && p.opening_recursion.diag_blocks == 1 && p.opening_recursion.next == Some(Box::new(AuxRecursionConfig { decomposition_base_log: 5, decomposition_chunks: 11, rank: 1, diag_blocks: 1, next: None })) && p.witness_decomposition_chunks == 4 && p.witness_decomposition_base_log == 6 && p.projection_recursion is Skip
        }),
        size is Small ==> ({
            let p = p_root_aux_params(size, nof_openings);
            p.exact_projection_norm == false && p.witness_height == 8192 && p.witness_width == 128 && p.projection_ratio == 1 && p.projection_height == 256 && p.basic_commitment_rank == 26 && p.basic_commitment_diag_blocks == 2 && p.nof_openings == nof_openings && p.commitment_recursion.decomposition_base_log == 7 && p.commitment_recursion.decomposition_chunks == 8 && p.commitment_recursion.rank == 8 && p.commitment_recursion.diag_blocks == 4 && p.commitment_recursion.next == Some(Box::new(AuxRecursionConfig { decomposition_base_log: 5, decomposition_chunks: 11, rank: 1, diag_blocks: 1, next: None })) && p.opening_recursion.decomposition_base_log == 7 && p.opening_recursion.decomposition_chunks == 8 && p.opening_recursion.rank == 16 && p.opening_recursion.diag_blocks == 8 && p.opening_recursion.next == Some(Box::new(AuxRecursionConfig { decomposition_base_log: 5, decomposition_chunks: 11, rank: 1, diag_blocks: 1, next: None })) && p.witness_decomposition_chunks == 4 && p.witness_decomposition_base_log == 6 && p.projection_recursion is Skip
        }),
        size is Medium ==> ({
            let p = p_root_aux_params(size, nof_openings);
            p.exact_projection_norm == false && p.witness_height == 16384 && p.witness_width == 256 && p.projection_ratio == 1 && p.projection_height == 256 && p.basic_commitment_rank == 26 && p.basic_commitment_diag_blocks == 2 && p.nof_openings == nof_openings && p.commitment_recursion.decomposition_base_log == 7 && p.commitment_recursion.decomposition_chunks == 8 && p.commitment_recursion.rank == 8 && p.commitment_recursion.diag_blocks == 4 && p.commitment_recursion.next == Some(Box::new(AuxRecursionConfig { decomposition_base_log: 5, decomposition_chunks: 11, rank: 1, diag_blocks: 1, next: None })) && p.opening_recursion.decomposition_base_log == 7 && p.opening_recursion.decomposition_chunks == 8 && p.opening_recursion.rank == 16 && p.opening_recursion.diag_blocks == 8 && p.opening_recursion.next == Some(Box::new(AuxRecursionConfig { decomposition_base_log: 5, decomposition_chunks: 11, rank: 1, diag_blocks: 1, next: None })) && p.witness_decomposition_chunks == 4 && p.witness_decomposition_base_log == 6 && p.projection_recursion is Skip
        }),
        size is NarrowLarge ==> ({
            let p = p_root_aux_params(size, nof_openings);
            p.exact_projection_norm == false && p.witness_height == 32768 && p.witness_width == 256 && p.projection_ratio == 1 && p.projection_height == 256 && p.basic_commitment_rank == 10 && p.basic_commitment_diag_blocks == 1 && p.nof_openings == nof_openings && p.commitment_recursion.decomposition_base_log == 7 && p.commitment_recursion.decomposition_chunks == 8 && p.commitment_recursion.rank == 4 && p.commitment_recursion.diag_blocks == 1 && p.commitment_recursion.next == Some(Box::new(AuxRecursionConfig { decomposition_base_log: 5, decomposition_chunks: 11, rank: 1, diag_blocks: 1, next: None })) && p.opening_recursion.decomposition_base_log == 7 && p.opening_recursion.decomposition_chunks == 8 && p.opening_recursion.rank == 4 && p.opening_recursion.diag_blocks == 1 && p.opening_recursion.next == Some(Box::new(AuxRecursionConfig { decomposition_base_log: 5, decomposition_chunks: 11, rank: 1, diag_blocks: 1, next: None })) && p.witness_decomposition_chunks == 4 && p.witness_decomposition_base_log == 6 && p.projection_recursion is Skip
        }),
        size is Large ==> ({
            let p = p_root_aux_params(size, nof_openings);
            p.exact_projection_norm == false && p.witness_height == 32768 && p.witness_width == 512 && p.projection_ratio == 1 && p.projection_height == 256 && p.basic_commitment_rank == 30 && p.basic_commitment_diag_blocks == 2 && p.nof_openings == nof_openings && p.commitment_recursion.decomposition_base_log == 7 && p.commitment_recursion.decomposition_chunks == 8 && p.commitment_recursion.rank == 32 && p.commitment_recursion.diag_blocks == 8 && p.commitment_recursion.next == Some(Box::new(AuxRecursionConfig { decomposition_base_log: 5, decomposition_chunks: 11, rank: 1, diag_blocks: 1, next: None })) && p.opening_recursion.decomposition_base_log == 7 && p.opening_recursion.decomposition_chunks == 8 && p.opening_recursion.rank == 64 && p.opening_recursion.diag_blocks == 16 && p.opening_recursion.next == Some(Box::new(AuxRecursionConfig { decomposition_base_log: 5, decomposition_chunks: 11, rank: 1, diag_blocks: 1, next: None })) && p.witness_decomposition_chunks == 4 && p.witness_decomposition_base_log == 7 && p.projection_recursion is Skip
        }),
        p_root_aux_params(size, nof_openings).next == Some(Box::new(AuxConfig::Sumcheck(p_1_params(size)))),
{
}

/// The root parameter set of the exact-norm chain, per size class, followed by the intermediate set of the same class.
pub proof fn lemma_p_exact_norm_root_aux_table(size: SizeConfig, nof_openings: usize)
    ensures
        size is Micro ==> ({
            let p = p_exact_norm_root_aux_params(size, nof_openings);
            p.exact_projection_norm == true && p.witness_height == 8192 && p.witness_width == 128 && p.projection_ratio == 32 && p.projection_height == 256 && p.basic_commitment_rank == 6 && p.basic_commitment_diag_blocks == 1 && p.nof_openings == nof_openings && p.commitment_recursion.decomposition_base_log == 7 && p.commitment_recursion.decomposition_chunks == 8 && p.commitment_recursion.rank == 2 && p.commitment_recursion.diag_blocks == 1 && p.commitment_recursion.next == Some(Box::new(AuxRecursionConfig { decomposition_base_log: 5, decomposition_chunks: 11, rank: 1, diag_blocks: 1, next: None })) && p.opening_recursion.decomposition_base_log == 7 && p.opening_recursion.decomposition_chunks == 8 && p.opening_recursion.rank == 2 && p.opening_recursion.diag_blocks == 1 && p.opening_recursion.next == Some(Box::new(AuxRecursionConfig { decomposition_base_log: 5, decomposition_chunks: 11, rank: 1, diag_blocks: 1, next: None })) && p.witness_decomposition_chunks == 4 && p.witness_decomposition_base_log == 4 && (p.projection_recursion matches AuxProjection::Coarse(q) && q.decomposition_base_log == 8 && q.decomposition_chunks == 2 && q.rank == 2 && q.diag_blocks == 1 && q.next == Some(Box::new(AuxRecursionConfig { decomposition_base_log: 5, decomposition_chunks: 11, rank: 1, diag_blocks: 1, next: None })))
        }),
        size is Tiny ==> ({
            let p = p_exact_norm_root_aux_params(size, nof_openings);
            p.exact_projection_norm == true && p.witness_height == 8192 && p.witness_width == 128 && p.projection_ratio == 32 && p.projection_height == 256 && p.basic_commitment_rank == 6 && p.basic_commitment_diag_blocks == 1 && p.nof_openings == nof_openings && p.commitment_recursion.decomposition_base_log == 7 && p.commitment_recursion.decomposition_chunks == 8 && p.commitment_recursion.rank == 2 && p.commitment_recursion.diag_blocks == 1 && p.commitment_recursion.next == Some(Box::new(AuxRecursionConfig { decomposition_base_log: 5, decomposition_chunks: 11, rank: 1, diag_blocks: 1, next: None })) && p.opening_recursion.decomposition_base_log == 7 && p.opening_recursion.decomposition_chunks == 8 && p.opening_recursion.rank == 2 && p.opening_recursion.diag_blocks == 1 && p.opening_recursion.next == Some(Box::new(AuxRecursionConfig { decomposition_base_log: 5, decomposition_chunks: 11, rank: 1, diag_blocks: 1, next: None })) && p.witness_decomposition_chunks == 4 && p.witness_decomposition_base_log == 4 && (p.projection_recursion matches AuxProjection::Coarse(q) && q.decomposition_base_log == 8 && q.decomposition_chunks == 2 && q.rank == 2 && q.diag_blocks == 1 && q.next == Some(Box::new(AuxRecursionConfig { decomposition_base_log: 5, decomposition_chunks: 11, rank: 1, diag_blocks: 1, next: None })))
        }),
        size is Small ==> ({
            let p = p_exact_norm_root_aux_params(size, nof_openings);
            p.exact_projection_norm == true && p.witness_height == 8192 && p.witness_width == 128 && p.projection_ratio == 32 && p.projection_height == 256 && p.basic_commitment_rank == 6 && p.basic_commitment_diag_blocks == 1 && p.nof_openings == nof_openings && p.commitment_recursion.decomposition_base_log == 7 && p.commitment_recursion.decomposition_chunks == 8 && p.commitment_recursion.rank == 2 && p.commitment_recursion.diag_blocks == 1 && p.commitment_recursion.next == Some(Box::new(AuxRecursionConfig { decomposition_base_log: 5, decomposition_chunks: 11, rank: 1, diag_blocks: 1, next: None })) && p.opening_recursion.decomposition_base_log == 7 && p.opening_recursion.decomposition_chunks == 8 && p.opening_recursion.rank == 2 && p.opening_recursion.diag_blocks == 1 && p.opening_recursion.next == Some(Box::new(AuxRecursionConfig { decomposition_base_log: 5, decomposition_chunks: 11, rank: 1, diag_blocks: 1, next: None })) && p.witness_decomposition_chunks == 4 && p.witness_decomposition_base_log == 4 && (p.projection_recursion matches AuxProjection::Coarse(q) && q.decomposition_base_log == 8 && q.decomposition_chunks == 2 && q.rank == 2 && q.diag_blocks == 1 && q.next == Some(Box::new(AuxRecursionConfig { decomposition_base_log: 5, decomposition_chunks: 11, rank: 1, diag_blocks: 1, next: None })))
        }),
        size is Medium ==> ({
            let p = p_exact_norm_root_aux_params(size, nof_openings);
            p.exact_projection_norm == true && p.witness_height == 16384 && p.witness_width == 256 && p.projection_ratio == 32 && p.projection_height == 256 && p.basic_commitment_rank == 6 && p.basic_commitment_diag_blocks == 1 && p.nof_openings == nof_openings && p.commitment_recursion.decomposition_base_log == 7 && p.commitment_recursion.decomposition_chunks == 8 && p.commitment_recursion.rank == 2 && p.commitment_recursion.diag_blocks == 1 && p.commitment_recursion.next == Some(Box::new(AuxRecursionConfig { decomposition_base_log: 5, decomposition_chunks: 11, rank: 1, diag_blocks: 1, next: None })) && p.opening_recursion.decomposition_base_log == 7 && p.opening_recursion.decomposition_chunks == 8 && p.opening_recursion.rank == 2 && p.opening_recursion.diag_blocks == 1 && p.opening_recursion.next == Some(Box::new(AuxRecursionConfig { decomposition_base_log: 5, decomposition_chunks: 11, rank: 1, diag_blocks: 1, next: None })) && p.witness_decomposition_chunks == 4 && p.witness_decomposition_base_log == 4 && (p.projection_recursion matches AuxProjection::Coarse(q) && q.decomposition_base_log == 8 && q.decomposition_chunks == 2 && q.rank == 2 && q.diag_blocks == 1 && q.next == Some(Box::new(AuxRecursionConfig { decomposition_base_log: 5, decomposition_chunks: 11, rank: 1, diag_blocks: 1, next: None })))
        }),
        size is NarrowLarge ==> ({
            let p = p_exact_norm_root_aux_params(size, nof_openings);
            p.exact_projection_norm == true && p.witness_height == 32768 && p.witness_width == 256 && p.projection_ratio == 32 && p.projection_height == 256 && p.basic_commitment_rank == 6 && p.basic_commitment_diag_blocks == 1 && p.nof_openings == nof_openings && p.commitment_recursion.decomposition_base_log == 7 && p.commitment_recursion.decomposition_chunks == 8 && p.commitment_recursion.rank == 2 && p.commitment_recursion.diag_blocks == 1 && p.commitment_recursion.next == Some(Box::new(AuxRecursionConfig { decomposition_base_log: 5, decomposition_chunks: 11, rank: 1, diag_blocks: 1, next: None })) && p.opening_recursion.decomposition_base_log == 7 && p.opening_recursion.decomposition_chunks == 8 && p.opening_recursion.rank == 2 && p.opening_recursion.diag_blocks == 1 && p.opening_recursion.next == Some(Box::new(AuxRecursionConfig { decomposition_base_log: 5, decomposition_chunks: 11, rank: 1, diag_blocks: 1, next: None })) && p.witness_decomposition_chunks == 4 && p.witness_decomposition_base_log == 4 && (p.projection_recursion matches AuxProjection::Coarse(q) && q.decomposition_base_log == 8 && q.decomposition_chunks == 2 && q.rank == 2 && q.diag_blocks == 1 && q.next == Some(Box::new(AuxRecursionConfig { decomposition_base_log: 5, decomposition_chunks: 11, rank: 1, diag_blocks: 1, next: None })))
        }),
        size is Large ==> ({
            let p = p_exact_norm_root_aux_params(size, nof_openings);
            p.exact_projection_norm == true && p.witness_height == 32768 && p.witness_width == 512 && p.projection_ratio == 32 && p.projection_height == 256 && p.basic_commitment_rank == 6 && p.basic_commitment_diag_blocks == 1 && p.nof_openings == nof_openings && p.commitment_recursion.decomposition_base_log == 7 && p.commitment_recursion.decomposition_chunks == 8 && p.commitment_recursion.rank == 2 && p.commitment_recursion.diag_blocks == 1 && p.commitment_recursion.next == Some(Box::new(AuxRecursionConfig { decomposition_base_log: 5, decomposition_chunks: 11, rank: 1, diag_blocks: 1, next: None })) && p.opening_recursion.decomposition_base_log == 7 && p.opening_recursion.decomposition_chunks == 8 && p.opening_recursion.rank == 2 && p.opening_recursion.diag_blocks == 1 && p.opening_recursion.next == Some(Box::new(AuxRecursionConfig { decomposition_base_log: 5, decomposition_chunks: 11, rank: 1, diag_blocks: 1, next: None })) && p.witness_decomposition_chunks == 4 && p.witness_decomposition_base_log == 7 && (p.projection_recursion matches AuxProjection::Coarse(q) && q.decomposition_base_log == 8 && q.decomposition_chunks == 2 && q.rank == 2 && q.diag_blocks == 1 && q.next == Some(Box::new(AuxRecursionConfig { decomposition_base_log: 5, decomposition_chunks: 11, rank: 1, diag_blocks: 1, next: None })))
        }),
        p_exact_norm_root_aux_params(size, nof_openings).next == Some(Box::new(AuxConfig::Sumcheck(p_int_params(size)))),
{
}

/// The intermediate parameter set of the exact-norm chain, per size class, followed by the first parameter set of the same class.
pub proof fn lemma_p_int_table(size: SizeConfig)
    ensures
        size is Micro ==> ({
            let p = p_int_params(size);
            p.exact_projection_norm == true && p.witness_height == 16384 && p.witness_width == 8 && p.projection_ratio == 32 && p.projection_height == 256 && p.basic_commitment_rank == 5 && p.basic_commitment_diag_blocks == 1 && p.nof_openings == 2 && p.commitment_recursion.decomposition_base_log == 7 && p.commitment_recursion.decomposition_chunks == 8 && p.commitment_recursion.rank == 2 && p.commitment_recursion.diag_blocks == 1 && p.commitment_recursion.next == Some(Box::new(AuxRecursionConfig { decomposition_base_log: 5, decomposition_chunks: 11, rank: 1, diag_blocks: 1, next: None })) && p.opening_recursion.decomposition_base_log == 7 && p.opening_recursion.decomposition_chunks == 8 && p.opening_recursion.rank == 2 && p.opening_recursion.diag_blocks == 1 && p.opening_recursion.next == Some(Box::new(AuxRecursionConfig { decomposition_base_log: 5, decomposition_chunks: 11, rank: 1, diag_blocks: 1, next: None })) && p.witness_decomposition_chunks == 2 && p.witness_decomposition_base_log == 7 && (p.projection_recursion matches AuxProjection::Coarse(q) && q.decomposition_base_log == 9 && q.decomposition_chunks == 2 && q.rank == 2 && q.diag_blocks == 1 && q.next == Some(Box::new(AuxRecursionConfig { decomposition_base_log: 5, decomposition_chunks: 11, rank: 1, diag_blocks: 1, next: None })))
        }),
        size is Tiny ==> ({
            let p = p_int_params(size);
            p.exact_projection_norm == true && p.witness_height == 16384 && p.witness_width == 8 && p.projection_ratio == 32 && p.projection_height == 256 && p.basic_commitment_rank == 5 && p.basic_commitment_diag_blocks == 1 && p.nof_openings == 2 && p.commitment_recursion.decomposition_base_log == 7 && p.commitment_recursion.decomposition_chunks == 8 && p.commitment_recursion.rank == 2 && p.commitment_recursion.diag_blocks == 1 && p.commitment_recursion.next == Some(Box::new(AuxRecursionConfig { decomposition_base_log: 5, decomposition_chunks: 11, rank: 1, diag_blocks: 1, next: None })) && p.opening_recursion.decomposition_base_log == 7 && p.opening_recursion.decomposition_chunks == 8 && p.opening_recursion.rank == 2 && p.opening_recursion.diag_blocks == 1 && p.opening_recursion.next == Some(Box::new(AuxRecursionConfig { decomposition_base_log: 5, decomposition_chunks: 11, rank: 1, diag_blocks: 1, next: None })) && p.witness_decomposition_chunks == 2 && p.witness_decomposition_base_log == 7 && (p.projection_recursion matches AuxProjection::Coarse(q) && q.decomposition_base_log == 9 && q.decomposition_chunks == 2 && q.rank == 2 && q.diag_blocks == 1 && q.next == Some(Box::new(AuxRecursionConfig { decomposition_base_log: 5, decomposition_chunks: 11, rank: 1, diag_blocks: 1, next: None })))
        }),
        size is Small ==> ({
            let p = p_int_params(size);
            p.exact_projection_norm == true && p.witness_height == 16384 && p.witness_width == 8 && p.projection_ratio == 32 && p.projection_height == 256 && p.basic_commitment_rank == 5 && p.basic_commitment_diag_blocks == 1 && p.nof_openings == 2 && p.commitment_recursion.decomposition_base_log == 7 && p.commitment_recursion.decomposition_chunks == 8 && p.commitment_recursion.rank == 2 && p.commitment_recursion.diag_blocks == 1 && p.commitment_recursion.next == Some(Box::new(AuxRecursionConfig { decomposition_base_log: 5, decomposition_chunks: 11, rank: 1, diag_blocks: 1, next: None })) && p.opening_recursion.decomposition_base_log == 7 && p.opening_recursion.decomposition_chunks == 8 && p.opening_recursion.rank == 2 && p.opening_recursion.diag_blocks == 1 && p.opening_recursion.next == Some(Box::new(AuxRecursionConfig { decomposition_base_log: 5, decomposition_chunks: 11, rank: 1, diag_blocks: 1, next: None })) && p.witness_decomposition_chunks == 2 && p.witness_decomposition_base_log == 7 && (p.projection_recursion matches AuxProjection::Coarse(q) && q.decomposition_base_log == 9 && q.decomposition_chunks == 2 && q.rank == 2 && q.diag_blocks == 1 && q.next == Some(Box::new(AuxRecursionConfig { decomposition_base_log: 5, decomposition_chunks: 11, rank: 1, diag_blocks: 1, next: None })))
        }),
        size is Medium ==> ({
            let p = p_int_params(size);
            p.exact_projection_norm == true && p.witness_height == 32768 && p.witness_width == 16 && p.projection_ratio == 32 && p.projection_height == 256 && p.basic_commitment_rank == 5 && p.basic_commitment_diag_blocks == 1 && p.nof_openings == 2 && p.commitment_recursion.decomposition_base_log == 7 && p.commitment_recursion.decomposition_chunks == 8 && p.commitment_recursion.rank == 2 && p.commitment_recursion.diag_blocks == 1 && p.commitment_recursion.next == Some(Box::new(AuxRecursionConfig { decomposition_base_log: 5, decomposition_chunks: 11, rank: 1, diag_blocks: 1, next: None })) && p.opening_recursion.decomposition_base_log == 7 && p.opening_recursion.decomposition_chunks == 8 && p.opening_recursion.rank == 2 && p.opening_recursion.diag_blocks == 1 && p.opening_recursion.next == Some(Box::new(AuxRecursionConfig { decomposition_base_log: 5, decomposition_chunks: 11, rank: 1, diag_blocks: 1, next: None })) && p.witness_decomposition_chunks == 2 && p.witness_decomposition_base_log == 7 && (p.projection_recursion matches AuxProjection::Coarse(q) && q.decomposition_base_log == 9 && q.decomposition_chunks == 2 && q.rank == 2 && q.diag_blocks == 1 && q.next == Some(Box::new(AuxRecursionConfig { decomposition_base_log: 5, decomposition_chunks: 11, rank: 1, diag_blocks: 1, next: None })))
        }),
        size is NarrowLarge ==> ({
            let p = p_int_params(size);
            p.exact_projection_norm == true && p.witness_height == 65536 && p.witness_width == 16 && p.projection_ratio == 32 && p.projection_height == 256 && p.basic_commitment_rank == 6 && p.basic_commitment_diag_blocks == 1 && p.nof_openings == 2 && p.commitment_recursion.decomposition_base_log == 7 && p.commitment_recursion.decomposition_chunks == 8 && p.commitment_recursion.rank == 4 && p.commitment_recursion.diag_blocks == 1 && p.commitment_recursion.next == Some(Box::new(AuxRecursionConfig { decomposition_base_log: 5, decomposition_chunks: 11, rank: 1, diag_blocks: 1, next: None })) && p.opening_recursion.decomposition_base_log == 7 && p.opening_recursion.decomposition_chunks == 8 && p.opening_recursion.rank == 2 && p.opening_recursion.diag_blocks == 1 && p.opening_recursion.next == Some(Box::new(AuxRecursionConfig { decomposition_base_log: 5, decomposition_chunks: 11, rank: 1, diag_blocks: 1, next: None })) && p.witness_decomposition_chunks == 2 && p.witness_decomposition_base_log == 7 && (p.projection_recursion matches AuxProjection::Coarse(q) && q.decomposition_base_log == 9 && q.decomposition_chunks == 2 && q.rank == 2 && q.diag_blocks == 1 && q.next == Some(Box::new(AuxRecursionConfig { decomposition_base_log: 5, decomposition_chunks: 11, rank: 1, diag_blocks: 1, next: None })))
        }),
        size is Large ==> ({
            let p = p_int_params(size);
            p.exact_projection_norm == true && p.witness_height == 65536 && p.witness_width == 32 && p.projection_ratio == 32 && p.projection_height == 256 && p.basic_commitment_rank == 6 && p.basic_commitment_diag_blocks == 1 && p.nof_openings == 2 && p.commitment_recursion.decomposition_base_log == 7 && p.commitment_recursion.decomposition_chunks == 8 && p.commitment_recursion.rank == 4 && p.commitment_recursion.diag_blocks == 1 && p.commitment_recursion.next == Some(Box::new(AuxRecursionConfig { decomposition_base_log: 5, decomposition_chunks: 11, rank: 1, diag_blocks: 1, next: None })) && p.opening_recursion.decomposition_base_log == 7 && p.opening_recursion.decomposition_chunks == 8 && p.opening_recursion.rank == 2 && p.opening_recursion.diag_blocks == 1 && p.opening_recursion.next == Some(Box::new(AuxRecursionConfig { decomposition_base_log: 5, decomposition_chunks: 11, rank: 1, diag_blocks: 1, next: None })) && p.witness_decomposition_chunks == 2 && p.witness_decomposition_base_log == 7 && (p.projection_recursion matches AuxProjection::Coarse(q) && q.decomposition_base_log == 9 && q.decomposition_chunks == 2 && q.rank == 2 && q.diag_blocks == 1 && q.next == Some(Box::new(AuxRecursionConfig { decomposition_base_log: 5, decomposition_chunks: 11, rank: 1, diag_blocks: 1, next: None })))
        }),
        p_int_params(size).next == Some(Box::new(AuxConfig::Sumcheck(p_1_params(size)))),
{
}

/// The root parameter set of the short chains: `2^11 x 2^7` for the tiny class, `2^10 x 2^6` otherwise; then the second parameter set of the same class.
pub proof fn lemma_p_root_aux_short_table(size: SizeConfig, nof_openings: usize)
    ensures
        size is Tiny ==> ({
            let p = p_root_aux_short_params(size, nof_openings);
            p.exact_projection_norm == false && p.witness_height == 2048 && p.witness_width == 128 && p.projection_ratio == 1 && p.projection_height == 256 && p.basic_commitment_rank == 16 && p.basic_commitment_diag_blocks == 1 && p.nof_openings == nof_openings && p.commitment_recursion.decomposition_base_log == 7 && p.commitment_recursion.decomposition_chunks == 8 && p.commitment_recursion.rank == 64 && p.commitment_recursion.diag_blocks == 32 && p.commitment_recursion.next == Some(Box::new(AuxRecursionConfig { decomposition_base_log: 5, decomposition_chunks: 11, rank: 1, diag_blocks: 1, next: None })) && p.opening_recursion.decomposition_base_log == 7 && p.opening_recursion.decomposition_chunks == 8 && p.opening_recursion.rank == 16 && p.opening_recursion.diag_blocks == 8 && p.opening_recursion.next == Some(Box::new(AuxRecursionConfig { decomposition_base_log: 5, decomposition_chunks: 11, rank: 1, diag_blocks: 1, next: None })) && p.witness_decomposition_chunks == 4 && p.witness_decomposition_base_log == 6 && p.projection_recursion is Skip
        }),
        !(size is Tiny) ==> ({
            let p = p_root_aux_short_params(size, nof_openings);
            p.exact_projection_norm == false && p.witness_height == 1024 && p.witness_width == 64 && p.projection_ratio == 1 && p.projection_height == 256 && p.basic_commitment_rank == 13 && p.basic_commitment_diag_blocks == 1 && p.nof_openings == nof_openings && p.commitment_recursion.decomposition_base_log == 7 && p.commitment_recursion.decomposition_chunks == 8 && p.commitment_recursion.rank == 8 && p.commitment_recursion.diag_blocks == 4 && p.commitment_recursion.next == Some(Box::new(AuxRecursionConfig { decomposition_base_log: 5, decomposition_chunks: 11, rank: 1, diag_blocks: 1, next: None })) && p.opening_recursion.decomposition_base_log == 7 && p.opening_recursion.decomposition_chunks == 8 && p.opening_recursion.rank == 8 && p.opening_recursion.diag_blocks == 4 && p.opening_recursion.next == Some(Box::new(AuxRecursionConfig { decomposition_base_log: 5, decomposition_chunks: 11, rank: 1, diag_blocks: 1, next: None })) && p.witness_decomposition_chunks == 4 && p.witness_decomposition_base_log == 6 && p.projection_recursion is Skip
        }),
        p_root_aux_short_params(size, nof_openings).next == Some(Box::new(AuxConfig::Sumcheck(p_2_params(size)))),
{
}

/// The first parameter set after the root, per size class, followed by the second set of the same class.
pub proof fn lemma_p_1_table(size: SizeConfig)
    ensures
        size is Micro ==> ({
            let p = p_1_params(size);
            p.exact_projection_norm == false && p.witness_height == 8192 && p.witness_width == 8 && p.projection_ratio == 32 && p.projection_height == 256 && p.basic_commitment_rank == 6 && p.basic_commitment_diag_blocks == 1 && p.nof_openings == 2 && p.commitment_recursion.decomposition_base_log == 7 && p.commitment_recursion.decomposition_chunks == 8 && p.commitment_recursion.rank == 4 && p.commitment_recursion.diag_blocks == 1 && p.commitment_recursion.next == Some(Box::new(AuxRecursionConfig { decomposition_base_log: 5, decomposition_chunks: 11, rank: 1, diag_blocks: 1, next: None })) && p.opening_recursion.decomposition_base_log == 7 && p.opening_recursion.decomposition_chunks == 8 && p.opening_recursion.rank == 2 && p.opening_recursion.diag_blocks == 1 && p.opening_recursion.next == Some(Box::new(AuxRecursionConfig { decomposition_base_log: 5, decomposition_chunks: 11, rank: 1, diag_blocks: 1, next: None })) && p.witness_decomposition_chunks == 2 && p.witness_decomposition_base_log == 7 && (p.projection_recursion matches AuxProjection::Coarse(q) && q.decomposition_base_log == 9 && q.decomposition_chunks == 2 && q.rank == 2 && q.diag_blocks == 1 && q.next == Some(Box::new(AuxRecursionConfig { decomposition_base_log: 5, decomposition_chunks: 11, rank: 1, diag_blocks: 1, next: None })))
        }),
        size is Tiny ==> ({
            let p = p_1_params(size);
            p.exact_projection_norm == false && p.witness_height == 8192 && p.witness_width == 8 && p.projection_ratio == 32 && p.projection_height == 256 && p.basic_commitment_rank == 6 && p.basic_commitment_diag_blocks == 1 && p.nof_openings == 2 && p.commitment_recursion.decomposition_base_log == 7 && p.commitment_recursion.decomposition_chunks == 8 && p.commitment_recursion.rank == 4 && p.commitment_recursion.diag_blocks == 1 && p.commitment_recursion.next == Some(Box::new(AuxRecursionConfig { decomposition_base_log: 5, decomposition_chunks: 11, rank: 1, diag_blocks: 1, next: None })) && p.opening_recursion.decomposition_base_log == 7 && p.opening_recursion.decomposition_chunks == 8 && p.opening_recursion.rank == 2 && p.opening_recursion.diag_blocks == 1 && p.opening_recursion.next == Some(Box::new(AuxRecursionConfig { decomposition_base_log: 5, decomposition_chunks: 11, rank: 1, diag_blocks: 1, next: None })) && p.witness_decomposition_chunks == 2 && p.witness_decomposition_base_log == 7 && (p.projection_recursion matches AuxProjection::Coarse(q) && q.decomposition_base_log == 9 && q.decomposition_chunks == 2 && q.rank == 2 && q.diag_blocks == 1 && q.next == Some(Box::new(AuxRecursionConfig { decomposition_base_log: 5, decomposition_chunks: 11, rank: 1, diag_blocks: 1, next: None })))
        }),
        size is Small ==> ({
            let p = p_1_params(size);
            p.exact_projection_norm == false && p.witness_height == 8192 && p.witness_width == 8 && p.projection_ratio == 32 && p.projection_height == 256 && p.basic_commitment_rank == 128 && p.basic_commitment_diag_blocks == 16 && p.nof_openings == 2 && p.commitment_recursion.decomposition_base_log == 7 && p.commitment_recursion.decomposition_chunks == 8 && p.commitment_recursion.rank == 32 && p.commitment_recursion.diag_blocks == 16 && p.commitment_recursion.next == Some(Box::new(AuxRecursionConfig { decomposition_base_log: 5, decomposition_chunks: 11, rank: 1, diag_blocks: 1, next: None })) && p.opening_recursion.decomposition_base_log == 7 && p.opening_recursion.decomposition_chunks == 8 && p.opening_recursion.rank == 4 && p.opening_recursion.diag_blocks == 2 && p.opening_recursion.next == Some(Box::new(AuxRecursionConfig { decomposition_base_log: 5, decomposition_chunks: 11, rank: 1, diag_blocks: 1, next: None })) && p.witness_decomposition_chunks == 2 && p.witness_decomposition_base_log == 7 && (p.projection_recursion matches AuxProjection::Coarse(q) && q.decomposition_base_log == 9 && q.decomposition_chunks == 2 && q.rank == 32 && q.diag_blocks == 16 && q.next == Some(Box::new(AuxRecursionConfig { decomposition_base_log: 5, decomposition_chunks: 11, rank: 1, diag_blocks: 1, next: None })))
        }),
        size is Medium ==> ({
            let p = p_1_params(size);
            p.exact_projection_norm == false && p.witness_height == 8192 && p.witness_width == 16 && p.projection_ratio == 32 && p.projection_height == 256 && p.basic_commitment_rank == 56 && p.basic_commitment_diag_blocks == 8 && p.nof_openings == 2 && p.commitment_recursion.decomposition_base_log == 7 && p.commitment_recursion.decomposition_chunks == 8 && p.commitment_recursion.rank == 8 && p.commitment_recursion.diag_blocks == 4 && p.commitment_recursion.next == Some(Box::new(AuxRecursionConfig { decomposition_base_log: 5, decomposition_chunks: 11, rank: 1, diag_blocks: 1, next: None })) && p.opening_recursion.decomposition_base_log == 7 && p.opening_recursion.decomposition_chunks == 8 && p.opening_recursion.rank == 8 && p.opening_recursion.diag_blocks == 4 && p.opening_recursion.next == Some(Box::new(AuxRecursionConfig { decomposition_base_log: 5, decomposition_chunks: 11, rank: 1, diag_blocks: 1, next: None })) && p.witness_decomposition_chunks == 2 && p.witness_decomposition_base_log == 7 && (p.projection_recursion matches AuxProjection::Coarse(q) && q.decomposition_base_log == 9 && q.decomposition_chunks == 2 && q.rank == 32 && q.diag_blocks == 16 && q.next == Some(Box::new(AuxRecursionConfig { decomposition_base_log: 5, decomposition_chunks: 11, rank: 1, diag_blocks: 1, next: None })))
        }),
        size is NarrowLarge ==> ({
            let p = p_1_params(size);
            p.exact_projection_norm == false && p.witness_height == 16384 && p.witness_width == 16 && p.projection_ratio == 32 && p.projection_height == 256 && p.basic_commitment_rank == 6 && p.basic_commitment_diag_blocks == 1 && p.nof_openings == 2 && p.commitment_recursion.decomposition_base_log == 7 && p.commitment_recursion.decomposition_chunks == 8 && p.commitment_recursion.rank == 4 && p.commitment_recursion.diag_blocks == 1 && p.commitment_recursion.next == Some(Box::new(AuxRecursionConfig { decomposition_base_log: 5, decomposition_chunks: 11, rank: 1, diag_blocks: 1, next: None })) && p.opening_recursion.decomposition_base_log == 7 && p.opening_recursion.decomposition_chunks == 8 && p.opening_recursion.rank == 2 && p.opening_recursion.diag_blocks == 1 && p.opening_recursion.next == Some(Box::new(AuxRecursionConfig { decomposition_base_log: 5, decomposition_chunks: 11, rank: 1, diag_blocks: 1, next: None })) && p.witness_decomposition_chunks == 2 && p.witness_decomposition_base_log == 7 && (p.projection_recursion matches AuxProjection::Coarse(q) && q.decomposition_base_log == 9 && q.decomposition_chunks == 2 && q.rank == 2 && q.diag_blocks == 1 && q.next == Some(Box::new(AuxRecursionConfig { decomposition_base_log: 5, decomposition_chunks: 11, rank: 1, diag_blocks: 1, next: None })))
        }),
        size is Large ==> ({
            let p = p_1_params(size);
            p.exact_projection_norm == false && p.witness_height == 16384 && p.witness_width == 16 && p.projection_ratio == 32 && p.projection_height == 256 && p.basic_commitment_rank == 112 && p.basic_commitment_diag_blocks == 16 && p.nof_openings == 2 && p.commitment_recursion.decomposition_base_log == 7 && p.commitment_recursion.decomposition_chunks == 8 && p.commitment_recursion.rank == 8 && p.commitment_recursion.diag_blocks == 4 && p.commitment_recursion.next == Some(Box::new(AuxRecursionConfig { decomposition_base_log: 5, decomposition_chunks: 11, rank: 1, diag_blocks: 1, next: None })) && p.opening_recursion.decomposition_base_log == 7 && p.opening_recursion.decomposition_chunks == 8 && p.opening_recursion.rank == 8 && p.opening_recursion.diag_blocks == 4 && p.opening_recursion.next == Some(Box::new(AuxRecursionConfig { decomposition_base_log: 5, decomposition_chunks: 11, rank: 1, diag_blocks: 1, next: None })) && p.witness_decomposition_chunks == 2 && p.witness_decomposition_base_log == 7 && (p.projection_recursion matches AuxProjection::Coarse(q) && q.decomposition_base_log == 9 && q.decomposition_chunks == 2 && q.rank == 64 && q.diag_blocks == 32 && q.next == Some(Box::new(AuxRecursionConfig { decomposition_base_log: 5, decomposition_chunks: 11, rank: 1, diag_blocks: 1, next: None })))
        }),
        p_1_params(size).next == Some(Box::new(AuxConfig::Sumcheck(p_2_params(size)))),
{
}

/// The second parameter set, per size class, followed by the fixed third round.
pub proof fn lemma_p_2_table(size: SizeConfig)
    ensures
        size is Micro ==> ({
            let p = p_2_params(size);
            p.exact_projection_norm == false && p.witness_height == 512 && p.witness_width == 32 && p.projection_ratio == 64 && p.projection_height == 256 && p.basic_commitment_rank == 16 && p.basic_commitment_diag_blocks == 2 && p.nof_openings == 2 && p.commitment_recursion.decomposition_base_log == 7 && p.commitment_recursion.decomposition_chunks == 8 && p.commitment_recursion.rank == 32 && p.commitment_recursion.diag_blocks == 16 && p.commitment_recursion.next == Some(Box::new(AuxRecursionConfig { decomposition_base_log: 5, decomposition_chunks: 11, rank: 1, diag_blocks: 1, next: None })) && p.opening_recursion.decomposition_base_log == 7 && p.opening_recursion.decomposition_chunks == 8 && p.opening_recursion.rank == 8 && p.opening_recursion.diag_blocks == 4 && p.opening_recursion.next == Some(Box::new(AuxRecursionConfig { decomposition_base_log: 5, decomposition_chunks: 11, rank: 1, diag_blocks: 1, next: None })) && p.witness_decomposition_chunks == 2 && p.witness_decomposition_base_log == 8 && (p.projection_recursion matches AuxProjection::Fine { nof_batches, recursion_constant_term: q, recursion_batched_projection: t } && nof_batches == 2 && q.decomposition_base_log == 9 && q.decomposition_chunks == 2 && q.rank == 8 && q.diag_blocks == 4 && q.next == Some(Box::new(AuxRecursionConfig { decomposition_base_log: 5, decomposition_chunks: 11, rank: 1, diag_blocks: 1, next: None })) && t.decomposition_base_log == 7 && t.decomposition_chunks == 8 && t.rank == 8 && t.diag_blocks == 4 && t.next == Some(Box::new(AuxRecursionConfig { decomposition_base_log: 5, decomposition_chunks: 11, rank: 1, diag_blocks: 1, next: None })))
        }),
        size is Tiny ==> ({
            let p = p_2_params(size);
            p.exact_projection_norm == false && p.witness_height == 1024 && p.witness_width == 32 && p.projection_ratio == 64 && p.projection_height == 256 && p.basic_commitment_rank == 14 && p.basic_commitment_diag_blocks == 2 && p.nof_openings == 2 && p.commitment_recursion.decomposition_base_log == 7 && p.commitment_recursion.decomposition_chunks == 8 && p.commitment_recursion.rank == 8 && p.commitment_recursion.diag_blocks == 4 && p.commitment_recursion.next == Some(Box::new(AuxRecursionConfig { decomposition_base_log: 5, decomposition_chunks: 11, rank: 1, diag_blocks: 1, next: None })) && p.opening_recursion.decomposition_base_log == 7 && p.opening_recursion.decomposition_chunks == 8 && p.opening_recursion.rank == 8 && p.opening_recursion.diag_blocks == 4 && p.opening_recursion.next == Some(Box::new(AuxRecursionConfig { decomposition_base_log: 5, decomposition_chunks: 11, rank: 1, diag_blocks: 1, next: None })) && p.witness_decomposition_chunks == 2 && p.witness_decomposition_base_log == 8 && (p.projection_recursion matches AuxProjection::Fine { nof_batches, recursion_constant_term: q, recursion_batched_projection: t } && nof_batches == 2 && q.decomposition_base_log == 9 && q.decomposition_chunks == 2 && q.rank == 16 && q.diag_blocks == 8 && q.next == Some(Box::new(AuxRecursionConfig { decomposition_base_log: 5, decomposition_chunks: 11, rank: 1, diag_blocks: 1, next: None })) && t.decomposition_base_log == 7 && t.decomposition_chunks == 8 && t.rank == 8 && t.diag_blocks == 4 && t.next == Some(Box::new(AuxRecursionConfig { decomposition_base_log: 5, decomposition_chunks: 11, rank: 1, diag_blocks: 1, next: None })))
        }),
        size is Small ==> ({
            let p = p_2_params(size);
            p.exact_projection_norm == false && p.witness_height == 1024 && p.witness_width == 32 && p.projection_ratio == 64 && p.projection_height == 256 && p.basic_commitment_rank == 14 && p.basic_commitment_diag_blocks == 2 && p.nof_openings == 2 && p.commitment_recursion.decomposition_base_log == 7 && p.commitment_recursion.decomposition_chunks == 8 && p.commitment_recursion.rank == 8 && p.commitment_recursion.diag_blocks == 4 && p.commitment_recursion.next == Some(Box::new(AuxRecursionConfig { decomposition_base_log: 5, decomposition_chunks: 11, rank: 1, diag_blocks: 1, next: None })) && p.opening_recursion.decomposition_base_log == 7 && p.opening_recursion.decomposition_chunks == 8 && p.opening_recursion.rank == 8 && p.opening_recursion.diag_blocks == 4 && p.opening_recursion.next == Some(Box::new(AuxRecursionConfig { decomposition_base_log: 5, decomposition_chunks: 11, rank: 1, diag_blocks: 1, next: None })) && p.witness_decomposition_chunks == 2 && p.witness_decomposition_base_log == 8 && (p.projection_recursion matches AuxProjection::Fine { nof_batches, recursion_constant_term: q, recursion_batched_projection: t } && nof_batches == 2 && q.decomposition_base_log == 9 && q.decomposition_chunks == 2 && q.rank == 16 && q.diag_blocks == 8 && q.next == Some(Box::new(AuxRecursionConfig { decomposition_base_log: 5, decomposition_chunks: 11, rank: 1, diag_blocks: 1, next: None })) && t.decomposition_base_log == 7 && t.decomposition_chunks == 8 && t.rank == 8 && t.diag_blocks == 4 && t.next == Some(Box::new(AuxRecursionConfig { decomposition_base_log: 5, decomposition_chunks: 11, rank: 1, diag_blocks: 1, next: None })))
        }),
        size is Medium ==> ({
            let p = p_2_params(size);
            p.exact_projection_norm == false && p.witness_height == 1024 && p.witness_width == 32 && p.projection_ratio == 32 && p.projection_height == 256 && p.basic_commitment_rank == 6 && p.basic_commitment_diag_blocks == 1 && p.nof_openings == 2 && p.commitment_recursion.decomposition_base_log == 7 && p.commitment_recursion.decomposition_chunks == 8 && p.commitment_recursion.rank == 4 && p.commitment_recursion.diag_blocks == 2 && p.commitment_recursion.next == Some(Box::new(AuxRecursionConfig { decomposition_base_log: 5, decomposition_chunks: 11, rank: 1, diag_blocks: 1, next: None })) && p.opening_recursion.decomposition_base_log == 7 && p.opening_recursion.decomposition_chunks == 8 && p.opening_recursion.rank == 8 && p.opening_recursion.diag_blocks == 4 && p.opening_recursion.next == Some(Box::new(AuxRecursionConfig { decomposition_base_log: 5, decomposition_chunks: 11, rank: 1, diag_blocks: 1, next: None })) && p.witness_decomposition_chunks == 2 && p.witness_decomposition_base_log == 8 && (p.projection_recursion matches AuxProjection::Fine { nof_batches, recursion_constant_term: q, recursion_batched_projection: t } && nof_batches == 2 && q.decomposition_base_log == 9 && q.decomposition_chunks == 2 && q.rank == 16 && q.diag_blocks == 8 && q.next == Some(Box::new(AuxRecursionConfig { decomposition_base_log: 5, decomposition_chunks: 11, rank: 1, diag_blocks: 1, next: None })) && t.decomposition_base_log == 7 && t.decomposition_chunks == 8 && t.rank == 8 && t.diag_blocks == 4 && t.next == Some(Box::new(AuxRecursionConfig { decomposition_base_log: 5, decomposition_chunks: 11, rank: 1, diag_blocks: 1, next: None })))
        }),
        size is NarrowLarge ==> ({
            let p = p_2_params(size);
            p.exact_projection_norm == false && p.witness_height == 2048 && p.witness_width == 32 && p.projection_ratio == 256 && p.projection_height == 256 && p.basic_commitment_rank == 6 && p.basic_commitment_diag_blocks == 1 && p.nof_openings == 2 && p.commitment_recursion.decomposition_base_log == 7 && p.commitment_recursion.decomposition_chunks == 8 && p.commitment_recursion.rank == 2 && p.commitment_recursion.diag_blocks == 1 && p.commitment_recursion.next == Some(Box::new(AuxRecursionConfig { decomposition_base_log: 5, decomposition_chunks: 11, rank: 1, diag_blocks: 1, next: None })) && p.opening_recursion.decomposition_base_log == 7 && p.opening_recursion.decomposition_chunks == 8 && p.opening_recursion.rank == 2 && p.opening_recursion.diag_blocks == 1 && p.opening_recursion.next == Some(Box::new(AuxRecursionConfig { decomposition_base_log: 5, decomposition_chunks: 11, rank: 1, diag_blocks: 1, next: None })) && p.witness_decomposition_chunks == 2 && p.witness_decomposition_base_log == 8 && (p.projection_recursion matches AuxProjection::Fine { nof_batches, recursion_constant_term: q, recursion_batched_projection: t } && nof_batches == 2 && q.decomposition_base_log == 9 && q.decomposition_chunks == 2 && q.rank == 2 && q.diag_blocks == 1 && q.next == Some(Box::new(AuxRecursionConfig { decomposition_base_log: 5, decomposition_chunks: 11, rank: 1, diag_blocks: 1, next: None })) && t.decomposition_base_log == 7 && t.decomposition_chunks == 8 && t.rank == 2 && t.diag_blocks == 1 && t.next == Some(Box::new(AuxRecursionConfig { decomposition_base_log: 5, decomposition_chunks: 11, rank: 1, diag_blocks: 1, next: None })))
        }),
        size is Large ==> ({
            let p = p_2_params(size);
            p.exact_projection_norm == false && p.witness_height == 2048 && p.witness_width == 32 && p.projection_ratio == 256 && p.projection_height == 256 && p.basic_commitment_rank == 6 && p.basic_commitment_diag_blocks == 1 && p.nof_openings == 2 && p.commitment_recursion.decomposition_base_log == 7 && p.commitment_recursion.decomposition_chunks == 8 && p.commitment_recursion.rank == 4 && p.commitment_recursion.diag_blocks == 2 && p.commitment_recursion.next == Some(Box::new(AuxRecursionConfig { decomposition_base_log: 5, decomposition_chunks: 11, rank: 1, diag_blocks: 1, next: None })) && p.opening_recursion.decomposition_base_log == 7 && p.opening_recursion.decomposition_chunks == 8 && p.opening_recursion.rank == 8 && p.opening_recursion.diag_blocks == 4 && p.opening_recursion.next == Some(Box::new(AuxRecursionConfig { decomposition_base_log: 5, decomposition_chunks: 11, rank: 1, diag_blocks: 1, next: None })) && p.witness_decomposition_chunks == 2 && p.witness_decomposition_base_log == 8 && (p.projection_recursion matches AuxProjection::Fine { nof_batches, recursion_constant_term: q, recursion_batched_projection: t } && nof_batches == 2 && q.decomposition_base_log == 9 && q.decomposition_chunks == 2 && q.rank == 8 && q.diag_blocks == 4 && q.next == Some(Box::new(AuxRecursionConfig { decomposition_base_log: 5, decomposition_chunks: 11, rank: 1, diag_blocks: 1, next: None })) && t.decomposition_base_log == 7 && t.decomposition_chunks == 8 && t.rank == 8 && t.diag_blocks == 4 && t.next == Some(Box::new(AuxRecursionConfig { decomposition_base_log: 5, decomposition_chunks: 11, rank: 1, diag_blocks: 1, next: None })))
        }),
        p_2_params(size).next == Some(Box::new(AuxConfig::Sumcheck(p_3_params()))),
{
}

/// The fixed rounds that close every chain: a `2^8 x 2^5` round, a `2^9 x 2^3` round, a `2^8 x 2^3` round whose recursions stop at one level, and the simple round over `2^8 x 2^2`.
pub proof fn lemma_chain_tail_table()
    ensures
        ({
            let p = p_3_params();
            p.exact_projection_norm == false && p.witness_height == 256 && p.witness_width == 32 && p.projection_ratio == 32 && p.projection_height == 256 && p.basic_commitment_rank == 7 && p.basic_commitment_diag_blocks == 1 && p.nof_openings == 2 && p.commitment_recursion.decomposition_base_log == 7 && p.commitment_recursion.decomposition_chunks == 8 && p.commitment_recursion.rank == 8 && p.commitment_recursion.diag_blocks == 4 && p.commitment_recursion.next == Some(Box::new(AuxRecursionConfig { decomposition_base_log: 5, decomposition_chunks: 11, rank: 1, diag_blocks: 1, next: None })) && p.opening_recursion.decomposition_base_log == 7 && p.opening_recursion.decomposition_chunks == 8 && p.opening_recursion.rank == 4 && p.opening_recursion.diag_blocks == 2 && p.opening_recursion.next == Some(Box::new(AuxRecursionConfig { decomposition_base_log: 5, decomposition_chunks: 11, rank: 1, diag_blocks: 1, next: None })) && p.witness_decomposition_chunks == 2 && p.witness_decomposition_base_log == 8 && (p.projection_recursion matches AuxProjection::Fine { nof_batches, recursion_constant_term: q, recursion_batched_projection: t } && nof_batches == 2 && q.decomposition_base_log == 10 && q.decomposition_chunks == 2 && q.rank == 4 && q.diag_blocks == 2 && q.next == Some(Box::new(AuxRecursionConfig { decomposition_base_log: 5, decomposition_chunks: 11, rank: 1, diag_blocks: 1, next: None })) && t.decomposition_base_log == 7 && t.decomposition_chunks == 8 && t.rank == 4 && t.diag_blocks == 2 && t.next == Some(Box::new(AuxRecursionConfig { decomposition_base_log: 5, decomposition_chunks: 11, rank: 1, diag_blocks: 1, next: None })))
        }),
        ({
            let p = p_4_params();
            p.exact_projection_norm == false && p.witness_height == 512 && p.witness_width == 8 && p.projection_ratio == 32 && p.projection_height == 256 && p.basic_commitment_rank == 5 && p.basic_commitment_diag_blocks == 1 && p.nof_openings == 2 && p.commitment_recursion.decomposition_base_log == 7 && p.commitment_recursion.decomposition_chunks == 8 && p.commitment_recursion.rank == 4 && p.commitment_recursion.diag_blocks == 2 && p.commitment_recursion.next == Some(Box::new(AuxRecursionConfig { decomposition_base_log: 5, decomposition_chunks: 11, rank: 1, diag_blocks: 1, next: None })) && p.opening_recursion.decomposition_base_log == 7 && p.opening_recursion.decomposition_chunks == 8 && p.opening_recursion.rank == 4 && p.opening_recursion.diag_blocks == 2 && p.opening_recursion.next == Some(Box::new(AuxRecursionConfig { decomposition_base_log: 5, decomposition_chunks: 11, rank: 1, diag_blocks: 1, next: None })) && p.witness_decomposition_chunks == 2 && p.witness_decomposition_base_log == 7 && (p.projection_recursion matches AuxProjection::Fine { nof_batches, recursion_constant_term: q, recursion_batched_projection: t } && nof_batches == 2 && q.decomposition_base_log == 9 && q.decomposition_chunks == 2 && q.rank == 4 && q.diag_blocks == 2 && q.next == Some(Box::new(AuxRecursionConfig { decomposition_base_log: 5, decomposition_chunks: 11, rank: 1, diag_blocks: 1, next: None })) && t.decomposition_base_log == 7 && t.decomposition_chunks == 8 && t.rank == 4 && t.diag_blocks == 2 && t.next == Some(Box::new(AuxRecursionConfig { decomposition_base_log: 5, decomposition_chunks: 11, rank: 1, diag_blocks: 1, next: None })))
        }),
        ({
            let p = p_5_params();
            p.exact_projection_norm == false && p.witness_height == 256 && p.witness_width == 8 && p.projection_ratio == 64 && p.projection_height == 256 && p.basic_commitment_rank == 4 && p.basic_commitment_diag_blocks == 1 && p.nof_openings == 2 && p.commitment_recursion.decomposition_base_log == 8 && p.commitment_recursion.decomposition_chunks == 7 && p.commitment_recursion.rank == 2 && p.commitment_recursion.diag_blocks == 1 && p.commitment_recursion.next is None && p.opening_recursion.decomposition_base_log == 8 && p.opening_recursion.decomposition_chunks == 7 && p.opening_recursion.rank == 2 && p.opening_recursion.diag_blocks == 1 && p.opening_recursion.next is None && p.witness_decomposition_chunks == 2 && p.witness_decomposition_base_log == 7 && (p.projection_recursion matches AuxProjection::Fine { nof_batches, recursion_constant_term: q, recursion_batched_projection: t } && nof_batches == 2 && q.decomposition_base_log == 9 && q.decomposition_chunks == 2 && q.rank == 2 && q.diag_blocks == 1 && q.next is None && t.decomposition_base_log == 8 && t.decomposition_chunks == 7 && t.rank == 2 && t.diag_blocks == 1 && t.next is None)
        }),
        p_3_params().next == Some(Box::new(AuxConfig::Sumcheck(p_4_params()))),
        p_4_params().next == Some(Box::new(AuxConfig::Sumcheck(p_5_params()))),
        p_5_params().next == Some(Box::new(AuxConfig::Simple(p_last_params()))),
        p_last_params().witness_height == 256 && p_last_params().witness_width == 4 && p_last_params().projection_ratio == 128 && p_last_params().projection_height == 256 && p_last_params().projection_nof_batches == 2 && p_last_params().basic_commitment_rank == 4,
{
}

} // verus!
