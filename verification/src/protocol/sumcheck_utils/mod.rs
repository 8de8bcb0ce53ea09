pub mod profile;
pub mod polynomial;
pub mod interpolation;
