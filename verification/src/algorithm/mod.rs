pub mod combinations;
pub mod overlap;
pub mod rho_path;
pub mod sqrt_decomposition;

pub use overlap::max_overlap;
pub use combinations::{combinations, combinations_with_replacement, permutations, product};
pub use rho_path::RhoPath;
pub use sqrt_decomposition::{SqrtDecomposition, SqrtDecompositionBuckets};
