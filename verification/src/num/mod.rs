pub mod arith;
pub mod barrett_reduction;
pub mod bounded;
pub mod montgomery;
pub mod order;
pub mod reverse;

pub use barrett_reduction::BarrettReduction;
pub use bounded::Bounded;
pub use montgomery::MontgomeryReduction32;
pub use order::Ordered;
