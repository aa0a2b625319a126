pub mod automaton;
pub mod bitset;
pub mod segment_tree;

pub use bitset::BitSet;
