pub mod boundary;
pub mod commitment;
pub mod config;
pub mod config_generator;
pub mod crs;
pub mod crs_standard;
pub mod evaluation_point_sampler;
pub mod fold;
pub mod folding;
pub mod intermediate_sumchecks;
pub mod params;
pub mod placement;
pub mod parties;
pub mod project;
pub mod round_proof;
pub mod project_coarse;
pub mod snark;
pub mod sumcheck;
pub mod sumcheck_utils;
