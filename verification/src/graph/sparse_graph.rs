use std::marker::PhantomData;
use std::ops::Range;
use vstd::prelude::*;

verus! {

/// Marks a graph whose edges lead from their first vertex to their second.
#[derive(Clone, Copy, Debug, PartialEq, Eq, PartialOrd, Ord, Hash)]
pub struct DirectedEdge;

/// Marks a graph whose edges lead both ways, under one edge number.
#[derive(Clone, Copy, Debug, PartialEq, Eq, PartialOrd, Ord, Hash)]
pub struct UndirectedEdge;

/// Marks a graph whose edges lead both ways, each way under a number of its own.
#[derive(Clone, Copy, Debug, PartialEq, Eq, PartialOrd, Ord, Hash)]
pub struct BidirectionalEdge;

/// One entry of a vertex's list of neighbours: the edge and where it leads.
#[derive(Clone, Copy, Debug, PartialEq, Eq, PartialOrd, Ord, Hash)]
pub struct Adjacency {
    pub id: usize,
    pub to: usize,
}

impl Adjacency {
    /// The entry for edge `id`, which leads to `to`.
    pub fn new(id: usize, to: usize) -> (a: Adjacency)
        ensures
            a.id == id,
            a.to == to,
    {
        Adjacency { id, to }
    }
}

impl Default for Adjacency {
    fn default() -> (a: Adjacency)
        ensures
            a.id == 0,
            a.to == 0,
    {
        Adjacency { id: 0, to: 0 }
    }
}

/// An entry together with the vertex in whose list it belongs.
pub type Arc = (usize, Adjacency);

/// The list of vertex `v`: the entries of the arcs that start at `v`, the latest first.
pub open spec fn list_of(arcs: Seq<Arc>, v: int) -> Seq<Adjacency>
    decreases arcs.len(),
{
    if arcs.len() == 0 {
        Seq::empty()
    } else if arcs.last().0 == v {
        seq![arcs.last().1] + list_of(arcs.drop_last(), v)
    } else {
        list_of(arcs.drop_last(), v)
    }
}

/// The number of arcs that start at a vertex below `v`.
pub open spec fn below(arcs: Seq<Arc>, v: int) -> int
    decreases v,
{
    if v <= 0 {
        0
    } else {
        below(arcs, v - 1) + list_of(arcs, v - 1).len()
    }
}

/// The arcs of a directed graph: one for each edge.
pub open spec fn directed_arcs(edges: Seq<(usize, usize)>) -> Seq<Arc> {
    Seq::new(edges.len(), |i: int| (edges[i].0, Adjacency { id: i as usize, to: edges[i].1 }))
}

/// The arcs of an undirected graph: two for each edge, under its number.
pub open spec fn undirected_arcs(edges: Seq<(usize, usize)>) -> Seq<Arc> {
    Seq::new(
        2 * edges.len(),
        |i: int|
            if i % 2 == 0 {
                (edges[i / 2].0, Adjacency { id: (i / 2) as usize, to: edges[i / 2].1 })
            } else {
                (edges[i / 2].1, Adjacency { id: (i / 2) as usize, to: edges[i / 2].0 })
            },
    )
}

/// The arcs of a bidirectional graph: two for each edge, numbered `2i` and `2i + 1`.
pub open spec fn bidirectional_arcs(edges: Seq<(usize, usize)>) -> Seq<Arc> {
    Seq::new(
        2 * edges.len(),
        |i: int|
            if i % 2 == 0 {
                (edges[i / 2].0, Adjacency { id: i as usize, to: edges[i / 2].1 })
            } else {
                (edges[i / 2].1, Adjacency { id: i as usize, to: edges[i / 2].0 })
            },
    )
}

proof fn lemma_list_push(arcs: Seq<Arc>, a: Arc, v: int)
    ensures
        list_of(arcs.push(a), v) == if a.0 == v {
            seq![a.1] + list_of(arcs, v)
        } else {
            list_of(arcs, v)
        },
{
    assert(arcs.push(a).drop_last() =~= arcs);
}

proof fn lemma_below_push(arcs: Seq<Arc>, a: Arc, v: int)
    ensures
        below(arcs.push(a), v) == below(arcs, v) + if a.0 < v {
            1int
        } else {
            0int
        },
    decreases v,
{
    if v > 0 {
        lemma_below_push(arcs, a, v - 1);
        lemma_list_push(arcs, a, v - 1);
    }
}

/// Every arc lies in the list of its vertex: the lists below `v` hold all
/// arcs once `v` is above every vertex.
proof fn lemma_below_all(arcs: Seq<Arc>, v: int)
    requires
        forall|i: int| 0 <= i < arcs.len() ==> (#[trigger] arcs[i]).0 < v,
    ensures
        below(arcs, v) == arcs.len(),
    decreases arcs.len(),
{
    if arcs.len() == 0 {
        lemma_below_empty(arcs, v);
    } else {
        let rest = arcs.drop_last();
        assert(arcs =~= rest.push(arcs.last()));
        lemma_below_all(rest, v);
        lemma_below_push(rest, arcs.last(), v);
    }
}

proof fn lemma_below_empty(arcs: Seq<Arc>, v: int)
    requires
        arcs.len() == 0,
    ensures
        below(arcs, v) == 0,
    decreases v,
{
    if v > 0 {
        lemma_below_empty(arcs, v - 1);
    }
}

proof fn lemma_below_monotone(arcs: Seq<Arc>, u: int, v: int)
    requires
        u <= v,
    ensures
        below(arcs, u) <= below(arcs, v),
    decreases v - u,
{
    if u < v {
        lemma_below_monotone(arcs, u, v - 1);
    }
}

/// A vertex above every arc's start has an empty list.
proof fn lemma_list_none(arcs: Seq<Arc>, v: int)
    requires
        forall|i: int| 0 <= i < arcs.len() ==> (#[trigger] arcs[i]).0 != v,
    ensures
        list_of(arcs, v).len() == 0,
    decreases arcs.len(),
{
    if arcs.len() > 0 {
        lemma_list_none(arcs.drop_last(), v);
    }
}

/// The list of a vertex only grows as arcs are added.
proof fn lemma_list_take(arcs: Seq<Arc>, i: int, v: int)
    requires
        0 <= i <= arcs.len(),
    ensures
        list_of(arcs.take(i), v).len() <= list_of(arcs, v).len(),
    decreases arcs.len(),
{
    if i == arcs.len() {
        assert(arcs.take(i) =~= arcs);
    } else {
        assert(arcs.take(i) =~= arcs.drop_last().take(i));
        lemma_list_take(arcs.drop_last(), i, v);
    }
}

/// The list of a vertex is no longer than the list of arcs.
proof fn lemma_list_len(arcs: Seq<Arc>, v: int)
    ensures
        list_of(arcs, v).len() <= arcs.len(),
    decreases arcs.len(),
{
    if arcs.len() > 0 {
        lemma_list_len(arcs.drop_last(), v);
    }
}

/// The lists stand one after the other.
proof fn lemma_below_step(arcs: Seq<Arc>, v: int)
    requires
        0 <= v,
    ensures
        below(arcs, v + 1) == below(arcs, v) + list_of(arcs, v).len(),
        0 <= below(arcs, v) <= below(arcs, v + 1),
{
    lemma_below_monotone(arcs, 0, v);
}

/// Where the list of vertex `u` stands while the arcs `done` have been placed:
/// at the end of the room that is kept for it.
spec fn placed(
    arcs: Seq<Arc>,
    done: Seq<Arc>,
    start: Seq<usize>,
    elist: Seq<Adjacency>,
    u: int,
) -> bool {
    &&& below(arcs, u) <= start[u] <= below(arcs, u + 1) <= arcs.len()
    &&& start[u] == below(arcs, u + 1) - list_of(done, u).len()
    &&& elist.subrange(start[u] as int, below(arcs, u + 1)) == list_of(done, u)
}

/// Lays the entries of `arcs` out vertex by vertex: the list of vertex `v`
/// stands in `elist` from `start[v]` to `start[v + 1]`.
fn compress(vsize: usize, arcs: &Vec<Arc>) -> (res: (Vec<usize>, Vec<Adjacency>))
    requires
        vsize < usize::MAX,
        forall|i: int| 0 <= i < arcs@.len() ==> (#[trigger] arcs@[i]).0 < vsize,
    ensures
        res.0@.len() == vsize + 1,
        res.1@.len() == arcs@.len(),
        forall|v: int| 0 <= v <= vsize ==> #[trigger] res.0@[v] == below(arcs@, v),
        forall|v: int|
            0 <= v < vsize ==> #[trigger] res.1@.subrange(
                res.0@[v] as int,
                res.0@[v + 1] as int,
            ) == list_of(arcs@, v),
{
    let m = arcs.len();
    let mut start: Vec<usize> = Vec::with_capacity(vsize + 1);
    let mut elist: Vec<Adjacency> = Vec::with_capacity(m);
    while start.len() < vsize + 1
        invariant
            vsize < usize::MAX,
            start@.len() <= vsize + 1,
            forall|v: int| 0 <= v < start@.len() ==> start@[v] == 0,
        decreases vsize + 1 - start@.len(),
    {
        start.push(0);
    }
    while elist.len() < m
        invariant
            elist@.len() <= m,
        decreases m - elist@.len(),
    {
        elist.push(Adjacency::default());
    }
    let mut i: usize = 0;
    proof {
        assert forall|v: int| 0 <= v <= vsize implies #[trigger] start@[v] == list_of(
            arcs@.take(0),
            v,
        ).len() by {
            assert(arcs@.take(0).len() == 0);
        }
    }
    while i < m
        invariant
            i <= m,
            m == arcs@.len(),
            start@.len() == vsize + 1,
            forall|j: int| 0 <= j < arcs@.len() ==> (#[trigger] arcs@[j]).0 < vsize,
            forall|v: int|
                0 <= v <= vsize ==> #[trigger] start@[v] == list_of(arcs@.take(i as int), v).len(),
        decreases m - i,
    {
        let from = arcs[i].0;
        let ghost counted = start@;
        proof {
            assert(arcs@.take(i + 1) =~= arcs@.take(i as int).push(arcs@[i as int]));
            lemma_list_push(arcs@.take(i as int), arcs@[i as int], from as int);
            lemma_list_take(arcs@, i + 1, from as int);
            lemma_list_len(arcs@, from as int);
        }
        start[from] = start[from] + 1;
        proof {
            assert forall|v: int| 0 <= v <= vsize implies #[trigger] start@[v] == list_of(
                arcs@.take(i + 1),
                v,
            ).len() by {
                lemma_list_push(arcs@.take(i as int), arcs@[i as int], v);
                assert(counted[v] == list_of(arcs@.take(i as int), v).len());
            }
        }
        i += 1;
    }
    assert(arcs@.take(m as int) =~= arcs@);
    proof {
        lemma_below_all(arcs@, vsize as int);
        lemma_list_none(arcs@, vsize as int);
        lemma_below_step(arcs@, 0);
    }
    let mut v: usize = 1;
    while v <= vsize
        invariant
            1 <= v <= vsize + 1,
            vsize < usize::MAX,
            m == arcs@.len(),
            start@.len() == vsize + 1,
            below(arcs@, vsize as int) == m,
            list_of(arcs@, vsize as int).len() == 0,
            forall|u: int| 0 <= u < v ==> #[trigger] start@[u] == below(arcs@, u + 1),
            forall|u: int| v <= u <= vsize ==> #[trigger] start@[u] == list_of(arcs@, u).len(),
        decreases vsize + 1 - v,
    {
        proof {
            lemma_below_step(arcs@, v as int);
            lemma_below_step(arcs@, vsize as int);
            lemma_below_monotone(arcs@, v + 1, vsize + 1);
            assert(start@[v - 1] == below(arcs@, v as int));
        }
        start[v] = start[v] + start[v - 1];
        v += 1;
    }
    let mut id: usize = 0;
    proof {
        lemma_below_step(arcs@, vsize as int);
        assert forall|u: int| 0 <= u < vsize implies #[trigger] placed(
            arcs@,
            arcs@.take(0),
            start@,
            elist@,
            u,
        ) by {
            assert(arcs@.take(0).len() == 0);
            lemma_below_step(arcs@, u);
            lemma_below_monotone(arcs@, u + 1, vsize as int);
            assert(elist@.subrange(start@[u] as int, below(arcs@, u + 1)) =~= Seq::empty());
        }
    }
    while id < m
        invariant
            id <= m,
            m == arcs@.len(),
            start@.len() == vsize + 1,
            elist@.len() == m,
            start@[vsize as int] == m,
            forall|j: int| 0 <= j < arcs@.len() ==> (#[trigger] arcs@[j]).0 < vsize,
            forall|u: int|
                0 <= u < vsize ==> #[trigger] placed(arcs@, arcs@.take(id as int), start@, elist@, u),
        decreases m - id,
    {
        let from = arcs[id].0;
        let entry = arcs[id].1;
        let ghost before = elist@;
        let ghost old_start = start@;
        let ghost done = arcs@.take(id as int);
        proof {
            assert(arcs@.take(id + 1) =~= done.push(arcs@[id as int]));
            assert(placed(arcs@, done, old_start, before, from as int));
            lemma_list_push(done, arcs@[id as int], from as int);
            lemma_list_take(arcs@, id + 1, from as int);
            lemma_below_step(arcs@, from as int);
        }
        start[from] = start[from] - 1;
        let at = start[from];
        elist[at] = entry;
        proof {
            assert forall|u: int| 0 <= u < vsize implies #[trigger] placed(
                arcs@,
                arcs@.take(id + 1),
                start@,
                elist@,
                u,
            ) by {
                assert(placed(arcs@, done, old_start, before, u));
                lemma_list_push(done, arcs@[id as int], u);
                if u == from {
                    assert(elist@.subrange(at as int, below(arcs@, u + 1)) =~= seq![entry]
                        + before.subrange(old_start[u] as int, below(arcs@, u + 1)));
                } else {
                    if u < from {
                        lemma_below_monotone(arcs@, u + 1, from as int);
                    } else {
                        lemma_below_monotone(arcs@, from + 1, u);
                    }
                    assert(elist@.subrange(start@[u] as int, below(arcs@, u + 1))
                        =~= before.subrange(old_start[u] as int, below(arcs@, u + 1)));
                }
            }
        }
        id += 1;
    }
    assert(arcs@.take(m as int) =~= arcs@);
    proof {
        lemma_below_all(arcs@, vsize as int);
        assert forall|v: int| 0 <= v < vsize implies #[trigger] start@[v] == below(arcs@, v) by {
            assert(placed(arcs@, arcs@, start@, elist@, v));
            lemma_below_step(arcs@, v);
        }
        assert forall|v: int| 0 <= v < vsize implies #[trigger] elist@.subrange(
            start@[v] as int,
            start@[v + 1] as int,
        ) == list_of(arcs@, v) by {
            assert(placed(arcs@, arcs@, start@, elist@, v));
            lemma_below_step(arcs@, v);
            if v + 1 < vsize {
                assert(placed(arcs@, arcs@, start@, elist@, v + 1));
                lemma_below_step(arcs@, v + 1);
            }
        }
    }
    (start, elist)
}

/// A graph that does not change, with the neighbours of all vertices in one array.
pub struct SparseGraph<D> {
    vsize: usize,
    /// Where the list of each vertex starts in `elist`; one more entry marks the end.
    pub start: Vec<usize>,
    /// The lists of all vertices, one after the other.
    pub elist: Vec<Adjacency>,
    /// The edges as they were given.
    pub edges: Vec<(usize, usize)>,
    _marker: PhantomData<D>,
}

impl<D> SparseGraph<D> {
    /// The number of vertices.
    pub closed spec fn size(&self) -> nat {
        self.vsize as nat
    }

    /// Where the list of each vertex starts, as a sequence.
    pub closed spec fn starts(&self) -> Seq<usize> {
        self.start@
    }

    /// The lists of all vertices, as one sequence.
    pub closed spec fn entries(&self) -> Seq<Adjacency> {
        self.elist@
    }

    /// The edges as they were given, as a sequence.
    pub closed spec fn edge_list(&self) -> Seq<(usize, usize)> {
        self.edges@
    }

    /// The lists of the vertices lie in `elist` one after the other.
    pub open spec fn wf(&self) -> bool {
        &&& self.starts().len() == self.size() + 1
        &&& forall|v: int|
            0 <= v < self.size() ==> (#[trigger] self.starts()[v]) <= self.starts()[v + 1]
                <= self.entries().len()
    }

    /// The list of vertex `v`.
    pub open spec fn list(&self, v: int) -> Seq<Adjacency> {
        self.entries().subrange(self.starts()[v] as int, self.starts()[v + 1] as int)
    }

    /// The graph holds the lists of `arcs`, and nothing else.
    pub open spec fn represents(&self, arcs: Seq<Arc>) -> bool {
        &&& self.wf()
        &&& self.entries().len() == arcs.len()
        &&& forall|v: int| 0 <= v <= self.size() ==> #[trigger] self.starts()[v] == below(arcs, v)
        &&& forall|v: int| 0 <= v < self.size() ==> #[trigger] self.list(v) == list_of(arcs, v)
    }

    /// The number of vertices.
    pub fn vertices_size(&self) -> (n: usize)
        ensures
            n == self.size(),
    {
        self.vsize
    }

    /// The number of edges.
    pub fn edges_size(&self) -> (n: usize)
        ensures
            n == self.edge_list().len(),
    {
        self.edges.len()
    }

    /// The vertices: the numbers below the number of vertices.
    pub fn vertices(&self) -> (r: Range<usize>)
        ensures
            r.start == 0,
            r.end == self.size(),
    {
        0..self.vertices_size()
    }

    /// The list of vertex `v`.
    pub fn adjacencies(&self, v: usize) -> (list: &[Adjacency])
        requires
            self.wf(),
            v < self.size(),
        ensures
            list@ == self.list(v as int),
    {
        &self.elist[self.start[v]..self.start[v + 1]]
    }

    /// A builder of a graph over `vsize` vertices.
    pub fn builder<T>(vsize: usize) -> (b: SparseGraphBuilder<T, D>)
        ensures
            b.size() == vsize,
            b.edges() == Seq::<(usize, usize)>::empty(),
            b.rest() == Seq::<T>::empty(),
    {
        SparseGraphBuilder::new(vsize)
    }

    /// A builder of a graph over `vsize` vertices, with room for `esize` edges.
    pub fn builder_with_esize<T>(vsize: usize, esize: usize) -> (b: SparseGraphBuilder<T, D>)
        ensures
            b.size() == vsize,
            b.edges() == Seq::<(usize, usize)>::empty(),
            b.rest() == Seq::<T>::empty(),
    {
        SparseGraphBuilder::new_with_esize(vsize, esize)
    }
}

/// A kind of edge: how a list of edges becomes the lists of the vertices.
pub trait SparseGraphConstruction: Sized {
    /// The entries that the edges put into the lists, in the order of the edges.
    spec fn arcs(edges: Seq<(usize, usize)>) -> Seq<Arc>;

    /// The edges can be laid out over `vsize` vertices.
    spec fn admits(vsize: usize, edges: Seq<(usize, usize)>) -> bool;

    fn construct_graph(vsize: usize, edges: Vec<(usize, usize)>) -> (g: SparseGraph<Self>)
        requires
            Self::admits(vsize, edges@),
        ensures
            g.size() == vsize,
            g.edge_list() == edges@,
            g.represents(Self::arcs(edges@)),
    ;
}

impl<D: SparseGraphConstruction> SparseGraph<D> {
    /// The graph over `vsize` vertices with the given edges.
    pub fn from_edges(vsize: usize, edges: Vec<(usize, usize)>) -> (g: Self)
        requires
            D::admits(vsize, edges@),
        ensures
            g.size() == vsize,
            g.edge_list() == edges@,
            g.represents(D::arcs(edges@)),
    {
        D::construct_graph(vsize, edges)
    }
}

/// What `compress` returns is a graph that holds the lists of `arcs`.
proof fn lemma_compressed_represents<D>(g: SparseGraph<D>, arcs: Seq<Arc>)
    requires
        g.starts().len() == g.size() + 1,
        g.entries().len() == arcs.len(),
        forall|i: int| 0 <= i < arcs.len() ==> (#[trigger] arcs[i]).0 < g.size(),
        forall|v: int| 0 <= v <= g.size() ==> #[trigger] g.starts()[v] == below(arcs, v),
        forall|v: int|
            0 <= v < g.size() ==> #[trigger] g.entries().subrange(
                g.starts()[v] as int,
                g.starts()[v + 1] as int,
            ) == list_of(arcs, v),
    ensures
        g.represents(arcs),
{
    lemma_below_all(arcs, g.size() as int);
    assert forall|v: int| 0 <= v < g.size() implies (#[trigger] g.starts()[v]) <= g.starts()[v + 1]
        <= g.entries().len() by {
        lemma_below_step(arcs, v);
        lemma_below_monotone(arcs, v + 1, g.size() as int);
    }
}

impl SparseGraphConstruction for DirectedEdge {
    open spec fn arcs(edges: Seq<(usize, usize)>) -> Seq<Arc> {
        directed_arcs(edges)
    }

    /// Every edge starts at a vertex.
    open spec fn admits(vsize: usize, edges: Seq<(usize, usize)>) -> bool {
        &&& vsize < usize::MAX
        &&& forall|i: int| 0 <= i < edges.len() ==> (#[trigger] edges[i]).0 < vsize
    }

    fn construct_graph(vsize: usize, edges: Vec<(usize, usize)>) -> (g: SparseGraph<Self>) {
        let mut arcs: Vec<Arc> = Vec::with_capacity(edges.len());
        let mut id: usize = 0;
        while id < edges.len()
            invariant
                id <= edges@.len(),
                arcs@ == directed_arcs(edges@).take(id as int),
            decreases edges@.len() - id,
        {
            let (from, to) = edges[id];
            arcs.push((from, Adjacency::new(id, to)));
            assert(arcs@ =~= directed_arcs(edges@).take(id + 1));
            id += 1;
        }
        assert(arcs@ =~= directed_arcs(edges@));
        let (start, elist) = compress(vsize, &arcs);
        let g = SparseGraph { vsize, start, elist, edges, _marker: PhantomData };
        proof {
            lemma_compressed_represents(g, arcs@);
        }
        g
    }
}

impl SparseGraphConstruction for UndirectedEdge {
    open spec fn arcs(edges: Seq<(usize, usize)>) -> Seq<Arc> {
        undirected_arcs(edges)
    }

    /// Every edge joins two vertices, and twice the edges can be counted.
    open spec fn admits(vsize: usize, edges: Seq<(usize, usize)>) -> bool {
        &&& vsize < usize::MAX
        &&& 2 * edges.len() <= usize::MAX
        &&& forall|i: int|
            0 <= i < edges.len() ==> (#[trigger] edges[i]).0 < vsize && edges[i].1 < vsize
    }

    fn construct_graph(vsize: usize, edges: Vec<(usize, usize)>) -> (g: SparseGraph<Self>) {
        let mut arcs: Vec<Arc> = Vec::with_capacity(2 * edges.len());
        let mut id: usize = 0;
        while id < edges.len()
            invariant
                id <= edges@.len(),
                2 * edges@.len() <= usize::MAX,
                arcs@ == undirected_arcs(edges@).take(2 * id),
            decreases edges@.len() - id,
        {
            let (from, to) = edges[id];
            arcs.push((from, Adjacency::new(id, to)));
            arcs.push((to, Adjacency::new(id, from)));
            assert(arcs@ =~= undirected_arcs(edges@).take(2 * (id + 1)));
            id += 1;
        }
        assert(arcs@ =~= undirected_arcs(edges@));
        let (start, elist) = compress(vsize, &arcs);
        let g = SparseGraph { vsize, start, elist, edges, _marker: PhantomData };
        proof {
            lemma_compressed_represents(g, arcs@);
        }
        g
    }
}

impl SparseGraphConstruction for BidirectionalEdge {
    open spec fn arcs(edges: Seq<(usize, usize)>) -> Seq<Arc> {
        bidirectional_arcs(edges)
    }

    /// Every edge joins two vertices, and twice the edges can be counted.
    open spec fn admits(vsize: usize, edges: Seq<(usize, usize)>) -> bool {
        &&& vsize < usize::MAX
        &&& 2 * edges.len() <= usize::MAX
        &&& forall|i: int|
            0 <= i < edges.len() ==> (#[trigger] edges[i]).0 < vsize && edges[i].1 < vsize
    }

    fn construct_graph(vsize: usize, edges: Vec<(usize, usize)>) -> (g: SparseGraph<Self>) {
        let mut arcs: Vec<Arc> = Vec::with_capacity(2 * edges.len());
        let mut id: usize = 0;
        while id < edges.len()
            invariant
                id <= edges@.len(),
                2 * edges@.len() <= usize::MAX,
                arcs@ == bidirectional_arcs(edges@).take(2 * id),
            decreases edges@.len() - id,
        {
            let (from, to) = edges[id];
            arcs.push((from, Adjacency::new(id * 2, to)));
            arcs.push((to, Adjacency::new(id * 2 + 1, from)));
            assert(arcs@ =~= bidirectional_arcs(edges@).take(2 * (id + 1)));
            id += 1;
        }
        assert(arcs@ =~= bidirectional_arcs(edges@));
        let (start, elist) = compress(vsize, &arcs);
        let g = SparseGraph { vsize, start, elist, edges, _marker: PhantomData };
        proof {
            lemma_compressed_represents(g, arcs@);
        }
        g
    }
}

/// Collects the edges of a graph, each with a value that belongs to it.
pub struct SparseGraphBuilder<T, D> {
    vsize: usize,
    edges: Vec<(usize, usize)>,
    rest: Vec<T>,
    _marker: PhantomData<D>,
}

impl<T, D> SparseGraphBuilder<T, D> {
    /// The number of vertices.
    pub closed spec fn size(&self) -> nat {
        self.vsize as nat
    }

    /// The edges added so far.
    pub closed spec fn edges(&self) -> Seq<(usize, usize)> {
        self.edges@
    }

    /// The values added so far, one for each edge.
    pub closed spec fn rest(&self) -> Seq<T> {
        self.rest@
    }

    /// A builder of a graph over `vsize` vertices, without edges.
    pub fn new(vsize: usize) -> (b: Self)
        ensures
            b.size() == vsize,
            b.edges() == Seq::<(usize, usize)>::empty(),
            b.rest() == Seq::<T>::empty(),
    {
        Self { vsize, edges: Vec::new(), rest: Vec::new(), _marker: PhantomData }
    }

    /// A builder of a graph over `vsize` vertices, without edges, with room for `esize`.
    pub fn new_with_esize(vsize: usize, esize: usize) -> (b: Self)
        ensures
            b.size() == vsize,
            b.edges() == Seq::<(usize, usize)>::empty(),
            b.rest() == Seq::<T>::empty(),
    {
        Self {
            vsize,
            edges: Vec::with_capacity(esize),
            rest: Vec::with_capacity(esize),
            _marker: PhantomData,
        }
    }

    /// Adds the edge from `u` to `v`, with the value `w`.
    pub fn add_edge(&mut self, u: usize, v: usize, w: T)
        ensures
            final(self).size() == old(self).size(),
            final(self).edges() == old(self).edges().push((u, v)),
            final(self).rest() == old(self).rest().push(w),
    {
        self.edges.push((u, v));
        self.rest.push(w);
    }
}

impl<T, D: SparseGraphConstruction> SparseGraphBuilder<T, D> {
    /// The graph of the edges added, and the values that came with them.
    pub fn build(self) -> (res: (SparseGraph<D>, Vec<T>))
        requires
            self.size() <= usize::MAX,
            D::admits(self.size() as usize, self.edges()),
        ensures
            res.0.size() == self.size(),
            res.0.edge_list() == self.edges(),
            res.0.represents(D::arcs(self.edges())),
            res.1@ == self.rest(),
    {
        let graph = SparseGraph::from_edges(self.vsize, self.edges);
        (graph, self.rest)
    }
}

} // verus!
