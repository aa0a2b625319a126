pub mod bitwiseand_convolve;

pub use bitwiseand_convolve::BitwiseandConvolve;
