//! Lattice-based succinct arguments: the verified core of the sumcheck,
//! claim-language and parameter logic, over a split model of the ring
//! `Z_q[X]/(X^d + 1)`.
pub mod common;
pub mod protocol;
