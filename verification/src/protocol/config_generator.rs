//! The shape of a protocol chain as its parameter sets state it, level by
//! level, before the derived sizes are filled in.
use vstd::prelude::*;
use crate::protocol::config::SimpleConfig;

verus! {

/// One level of a recursive commitment: its digit decomposition, its rank
/// and block-diagonal shape, and the level that commits to its output.
pub struct AuxRecursionConfig {
    pub decomposition_base_log: usize,
    pub decomposition_chunks: usize,
    pub rank: usize,
    pub diag_blocks: usize,
    pub next: Option<Box<AuxRecursionConfig>>,
}

/// How a round handles the projection of its witness.
pub enum AuxProjection {
    /// No projection in this round.
    Skip,
    /// The coarse projection, committed with this recursion.
    Coarse(AuxRecursionConfig),
    /// The fine projection: `nof_batches` batched projections, committed
    /// with the second recursion, and their constant terms with the first.
    Fine {
        nof_batches: usize,
        recursion_constant_term: AuxRecursionConfig,
        recursion_batched_projection: AuxRecursionConfig,
    },
}

/// One sumcheck round of the chain.
pub struct AuxSumcheckConfig {
    pub exact_projection_norm: bool,
    pub witness_height: usize,
    pub witness_width: usize,
    pub projection_ratio: usize,
    pub projection_height: usize,
    pub basic_commitment_rank: usize,
    pub basic_commitment_diag_blocks: usize,
    pub nof_openings: usize,
    pub commitment_recursion: AuxRecursionConfig,
    pub opening_recursion: AuxRecursionConfig,
    pub projection_recursion: AuxProjection,
    pub witness_decomposition_chunks: usize,
    pub witness_decomposition_base_log: usize,
    pub next: Option<Box<AuxConfig>>,
}

/// A round of the chain: a sumcheck round, or the final simple round.
pub enum AuxConfig {
    Sumcheck(AuxSumcheckConfig),
    Simple(SimpleConfig),
}

} // verus!
