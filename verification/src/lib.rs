pub mod algebra;
pub mod algorithm;
pub mod data_structure;
pub mod graph;
pub mod math;
pub mod num;
pub mod tools;
