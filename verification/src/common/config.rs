use vstd::prelude::*;

verus! {

/// The prime modulus `q = 2^61 - 1` of the base field.
pub const MOD_Q: u64 = 2305843009213693951u64;

/// Degree `d` of the cyclotomic ring `Z_q[X]/(X^d + 1)`.
pub const DEGREE: usize = 128usize;

/// Number of quadratic slots a ring element splits into.
pub const HALF_DEGREE: usize = 64usize;

/// Number of batched projection instances per round.
pub const NOF_BATCHES: usize = 2usize;

} // verus!
