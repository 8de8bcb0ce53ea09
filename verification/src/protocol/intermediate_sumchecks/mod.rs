pub mod runner;
pub mod runner_verifier;
