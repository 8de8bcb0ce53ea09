pub mod algebra;
pub mod arithmetic;
pub mod bits;
pub mod config;
pub mod conjugation;
pub mod field;
pub mod hash;
pub mod matrix;
pub mod projection_matrix;
pub mod ring_arithmetic;
pub mod sampling;
pub mod structured_row;
pub mod sumcheck_element;
