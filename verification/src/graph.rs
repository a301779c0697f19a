//! Directed dependency graphs: paths, cycles and topological orders, and the
//! petgraph calls that build a graph and sort it.
use petgraph::graph::{Graph, NodeIndex};
use petgraph::Directed;
use vstd::prelude::*;

verus! {

/// A directed graph whose edges are pairs of node indices: `edges` holds the
/// pair `(a, b)` for an edge from `a` to `b`.
/// The `i`-th step of `p`, from `p[i]` to `p[i + 1]`, is an edge.
pub open spec fn path_step(edges: Seq<(int, int)>, p: Seq<int>, i: int) -> bool {
    edges.contains((p[i], p[i + 1]))
}

/// `p` is a path of at least one edge in the graph.
pub open spec fn is_path(edges: Seq<(int, int)>, p: Seq<int>) -> bool {
    &&& p.len() >= 2
    &&& forall|i: int| 0 <= i < p.len() - 1 ==> #[trigger] path_step(edges, p, i)
}

/// Node `v` lies on a cycle: some path leaves `v` and comes back to it.
pub open spec fn on_cycle(edges: Seq<(int, int)>, v: int) -> bool {
    exists|p: Seq<int>| #[trigger] is_path(edges, p) && p[0] == v && p.last() == v
}

/// The graph holds a cycle.
pub open spec fn has_cycle(edges: Seq<(int, int)>) -> bool {
    exists|v: int| #[trigger] on_cycle(edges, v)
}

/// Every edge joins two of the nodes `0..n`.
pub open spec fn edges_in_range(edges: Seq<(int, int)>, n: int) -> bool {
    forall|e: (int, int)| #[trigger] edges.contains(e) ==> 0 <= e.0 < n && 0 <= e.1 < n
}

/// `order` lists each of the nodes `0..n` exactly once, and every edge goes
/// from a node listed earlier to a node listed later.
pub open spec fn is_topological_order(order: Seq<int>, n: int, edges: Seq<(int, int)>) -> bool {
    &&& order.len() == n
    &&& order.no_duplicates()
    &&& forall|i: int| 0 <= i < n ==> 0 <= #[trigger] order[i] < n
    &&& forall|v: int| 0 <= v < n ==> #[trigger] order.contains(v)
    &&& forall|i: int, j: int|
        0 <= i < n && 0 <= j < n && #[trigger] edges.contains((order[i], order[j])) ==> i < j
}

/// The position of node `v` in `order`.
pub open spec fn position_in(order: Seq<int>, v: int) -> int {
    choose|i: int| 0 <= i < order.len() && order[i] == v
}

proof fn lemma_position(order: Seq<int>, v: int)
    requires
        order.contains(v),
    ensures
        0 <= position_in(order, v) < order.len(),
        order[position_in(order, v)] == v,
{
}

/// Along a path, positions in a topological order strictly increase.
proof fn lemma_path_increases(order: Seq<int>, n: int, edges: Seq<(int, int)>, p: Seq<int>)
    requires
        is_topological_order(order, n, edges),
        edges_in_range(edges, n),
        is_path(edges, p),
    ensures
        position_in(order, p[0]) < position_in(order, p.last()),
    decreases p.len(),
{
    assert(path_step(edges, p, 0));
    lemma_position(order, p[0]);
    lemma_position(order, p[1]);
    let i = position_in(order, p[0]);
    let j = position_in(order, p[1]);
    assert(edges.contains((order[i], order[j])));
    if p.len() > 2 {
        let q = p.drop_first();
        assert forall|k: int| 0 <= k < q.len() - 1 implies #[trigger] path_step(edges, q, k) by {
            assert(path_step(edges, p, k + 1));
        }
        lemma_path_increases(order, n, edges, q);
    }
}

/// A graph with a topological order has no cycle.
pub proof fn lemma_topological_order_acyclic(order: Seq<int>, n: int, edges: Seq<(int, int)>)
    requires
        is_topological_order(order, n, edges),
        edges_in_range(edges, n),
    ensures
        !has_cycle(edges),
{
    if has_cycle(edges) {
        let v = choose|v: int| #[trigger] on_cycle(edges, v);
        let p = choose|p: Seq<int>| #[trigger] is_path(edges, p) && p[0] == v && p.last() == v;
        lemma_path_increases(order, n, edges, p);
    }
}

/// The directed graph type of petgraph.
#[verifier::external_type_specification]
#[verifier::external_body]
#[verifier::reject_recursive_types(N)]
#[verifier::reject_recursive_types(E)]
#[verifier::reject_recursive_types(Ty)]
#[verifier::reject_recursive_types(Ix)]
pub struct ExGraph<N, E, Ty, Ix>(Graph<N, E, Ty, Ix>);

/// The marker type of petgraph for directed edges.
#[verifier::external_type_specification]
#[verifier::external_body]
pub struct ExDirected(Directed);

/// The weights of the nodes of a petgraph graph, node index `i` at position `i`.
pub uninterp spec fn graph_nodes(g: Graph<usize, (), Directed, u32>) -> Seq<usize>;

/// The edges of a petgraph graph, as `(source, target)` node indices in the
/// order in which they were added.
pub uninterp spec fn graph_edges(g: Graph<usize, (), Directed, u32>) -> Seq<(int, int)>;

/// What `petgraph::algo::toposort` gives for a graph with these node weights
/// and edges: the node indices in the order it returns, or the node of a
/// cycle that it reports.
pub uninterp spec fn toposort_of(nodes: Seq<usize>, edges: Seq<(int, int)>) -> Result<
    Seq<usize>,
    usize,
>;

/// The contents of a sort result.
pub open spec fn order_view(r: Result<Vec<usize>, usize>) -> Result<Seq<usize>, usize> {
    match r {
        Ok(order) => Ok(order@),
        Err(c) => Err(c),
    }
}

/// `Graph::new` of petgraph (directed): a graph with no nodes and no edges.
#[verifier::external_body]
pub(crate) fn new_graph() -> (g: Graph<usize, (), Directed, u32>)
    ensures
        graph_nodes(g) == Seq::<usize>::empty(),
        graph_edges(g) == Seq::<(int, int)>::empty(),
{
    Graph::new()
}

/// `Graph::add_node` of petgraph: appends a node with the given weight and
/// returns its index, the former node count. petgraph panics when the count
/// has reached `u32::MAX`, the end marker of its index type.
#[verifier::external_body]
pub(crate) fn add_node(g: &mut Graph<usize, (), Directed, u32>, weight: usize) -> (ix: usize)
    requires
        graph_nodes(*old(g)).len() < u32::MAX,
    ensures
        graph_nodes(*final(g)) == graph_nodes(*old(g)).push(weight),
        graph_edges(*final(g)) == graph_edges(*old(g)),
        ix == graph_nodes(*old(g)).len(),
{
    g.add_node(weight).index()
}

/// `Graph::add_edge` of petgraph: appends the edge `a -> b` and returns its
/// index, the former edge count. petgraph panics when a node does not exist
/// or the edge count has reached `u32::MAX`.
#[verifier::external_body]
pub(crate) fn add_edge(g: &mut Graph<usize, (), Directed, u32>, a: usize, b: usize) -> (ix: usize)
    requires
        a < graph_nodes(*old(g)).len(),
        b < graph_nodes(*old(g)).len(),
        graph_edges(*old(g)).len() < u32::MAX,
    ensures
        graph_nodes(*final(g)) == graph_nodes(*old(g)),
        graph_edges(*final(g)) == graph_edges(*old(g)).push((a as int, b as int)),
        ix == graph_edges(*old(g)).len(),
{
    g.add_edge(NodeIndex::new(a), NodeIndex::new(b), ()).index()
}

/// `Graph::node_weight` of petgraph: the weight of node `a`, or `None` when
/// there is no such node.
#[verifier::external_body]
pub(crate) fn node_weight(g: &Graph<usize, (), Directed, u32>, a: usize) -> (w: Option<usize>)
    requires
        a <= u32::MAX,
    ensures
        a < graph_nodes(*g).len() ==> w == Some(graph_nodes(*g)[a as int]),
        a >= graph_nodes(*g).len() ==> w is None,
{
    g.node_weight(NodeIndex::new(a)).copied()
}

/// `petgraph::algo::toposort` without a workspace: on success, the nodes of
/// the graph in topological order (each node before its successors); on a
/// cycle, a node that participates in a cycle. The result is a function of
/// the graph's nodes and edges, named `toposort_of`; which of the valid
/// orders, and which node of a cycle, it is, is left unsaid.
#[verifier::external_body]
pub(crate) fn toposort(g: &Graph<usize, (), Directed, u32>) -> (r: Result<Vec<usize>, usize>)
    ensures
        r matches Ok(order) ==> is_topological_order(
            order@.map_values(|i: usize| i as int),
            graph_nodes(*g).len() as int,
            graph_edges(*g),
        ),
        r matches Err(c) ==> c < graph_nodes(*g).len() && on_cycle(graph_edges(*g), c as int),
        order_view(r) == toposort_of(graph_nodes(*g), graph_edges(*g)),
{
    match petgraph::algo::toposort(g, None) {
        Ok(order) => Ok(order.into_iter().map(|n| n.index()).collect()),
        Err(cycle) => Err(cycle.node_id().index()),
    }
}

} // verus!
