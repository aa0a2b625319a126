pub mod bit_operations;
pub mod magma;
pub mod operations;
pub mod product;
