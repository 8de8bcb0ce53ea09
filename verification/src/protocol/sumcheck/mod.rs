pub mod hypercube_point;
pub mod polynomial;
pub mod linear;
pub mod inner_product;
pub mod common;
