use competitive::graph::{
    Adjacency, BidirectionalEdge, DirectedEdge, SparseGraph, SparseGraphBuilder, UndirectedEdge,
};

#[test]
fn directed_graph_lists_the_latest_edge_first() {
    let edges = vec![(0, 1), (2, 0), (0, 2), (1, 2), (0, 0)];
    let g = SparseGraph::<DirectedEdge>::from_edges(3, edges.clone());
    assert_eq!(g.vertices_size(), 3);
    assert_eq!(g.edges_size(), 5);
    assert_eq!(g.vertices(), 0..3);
    assert_eq!(g.edges, edges);
    assert_eq!(g.start, vec![0, 3, 4, 5]);
    assert_eq!(
        g.adjacencies(0),
        &[Adjacency::new(4, 0), Adjacency::new(2, 2), Adjacency::new(0, 1)]
    );
    assert_eq!(g.adjacencies(1), &[Adjacency::new(3, 2)]);
    assert_eq!(g.adjacencies(2), &[Adjacency::new(1, 0)]);
}

#[test]
fn undirected_graph_lists_each_edge_at_both_ends() {
    let g = SparseGraph::<UndirectedEdge>::from_edges(3, vec![(0, 1), (1, 2)]);
    assert_eq!(g.elist.len(), 4);
    assert_eq!(g.adjacencies(0), &[Adjacency::new(0, 1)]);
    assert_eq!(g.adjacencies(1), &[Adjacency::new(1, 2), Adjacency::new(0, 0)]);
    assert_eq!(g.adjacencies(2), &[Adjacency::new(1, 1)]);
}

#[test]
fn bidirectional_graph_numbers_both_ways() {
    let g = SparseGraph::<BidirectionalEdge>::from_edges(3, vec![(0, 1), (1, 2)]);
    assert_eq!(g.adjacencies(0), &[Adjacency::new(0, 1)]);
    assert_eq!(g.adjacencies(1), &[Adjacency::new(2, 2), Adjacency::new(1, 0)]);
    assert_eq!(g.adjacencies(2), &[Adjacency::new(3, 1)]);
}

#[test]
fn builder_keeps_the_values_of_the_edges() {
    let mut b: SparseGraphBuilder<char, DirectedEdge> = SparseGraph::builder(4);
    b.add_edge(3, 1, 'x');
    b.add_edge(0, 2, 'y');
    let (g, rest) = b.build();
    assert_eq!(rest, vec!['x', 'y']);
    assert_eq!(g.edges, vec![(3, 1), (0, 2)]);
    assert_eq!(g.adjacencies(3), &[Adjacency::new(0, 1)]);
    assert_eq!(g.adjacencies(1), &[]);
    let mut b: SparseGraphBuilder<(), UndirectedEdge> = SparseGraph::builder_with_esize(2, 1);
    b.add_edge(0, 1, ());
    let (g, _) = b.build();
    assert_eq!(g.edges_size(), 1);
    let b = SparseGraphBuilder::<u8, DirectedEdge>::new(0);
    let (g, rest) = b.build();
    assert_eq!(g.vertices_size(), 0);
    assert!(rest.is_empty());
    let b = SparseGraphBuilder::<u8, DirectedEdge>::new_with_esize(1, 5);
    assert_eq!(b.build().0.start, vec![0, 0]);
    assert_eq!(Adjacency::default(), Adjacency::new(0, 0));
}
