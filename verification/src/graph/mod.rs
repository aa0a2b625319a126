pub mod sparse_graph;

pub use sparse_graph::{
    Adjacency, BidirectionalEdge, DirectedEdge, SparseGraph, SparseGraphBuilder,
    SparseGraphConstruction, UndirectedEdge,
};
