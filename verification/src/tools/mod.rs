pub mod xorshift;

pub use xorshift::Xorshift;
