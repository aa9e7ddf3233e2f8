//! The undirected graph in which a maze keeps its passages: petgraph's
//! `GraphMap`, keyed by `(x, y)` cell coordinates.
use std::hash::BuildHasher;

use petgraph::graphmap::GraphMap;
use petgraph::Undirected;
use vstd::prelude::*;

verus! {

#[verifier::external_type_specification]
#[verifier::external_body]
#[verifier::reject_recursive_types(N)]
#[verifier::reject_recursive_types(E)]
#[verifier::reject_recursive_types(Ty)]
#[verifier::reject_recursive_types(S)]
pub struct ExGraphMap<N, E, Ty, S>(GraphMap<N, E, Ty, S>) where S: BuildHasher;

#[verifier::external_type_specification]
#[verifier::external_body]
pub struct ExUndirected(Undirected);

/// The passage graph of a maze: cells are `(x, y)` pairs, edges carry no data.
pub type CellGraph = GraphMap<(i32, i32), (), Undirected>;

/// The edges of a cell graph, each one held in both orientations:
/// `(a, b)` belongs to it exactly when an edge joins `a` and `b`.
pub uninterp spec fn graph_edges(g: GraphMap<(i32, i32), (), Undirected>) -> Set<((i32, i32), (i32, i32))>;

/// The nodes of a cell graph.
pub uninterp spec fn graph_nodes(g: GraphMap<(i32, i32), (), Undirected>) -> Set<(i32, i32)>;

/// `GraphMap::with_capacity`: a graph without nodes or edges (the capacities
/// are only a hint for the allocator).
#[verifier::external_body]
pub(crate) fn graph_with_capacity(nodes: usize, edges: usize) -> (g: CellGraph)
    ensures
        graph_edges(g) == Set::<((i32, i32), (i32, i32))>::empty(),
        graph_nodes(g) == Set::<(i32, i32)>::empty(),
{
    GraphMap::with_capacity(nodes, edges)
}

/// `GraphMap::add_node`: inserts `n` (a no-op when it is present already)
/// and hands `n` back; the edges stay as they were.
#[verifier::external_body]
pub(crate) fn graph_add_node(g: &mut CellGraph, n: (i32, i32)) -> (r: (i32, i32))
    ensures
        r == n,
        graph_nodes(*final(g)) == graph_nodes(*old(g)).insert(n),
        graph_edges(*final(g)) == graph_edges(*old(g)),
{
    g.add_node(n)
}

/// `GraphMap::add_edge` on an undirected graph: joins `a` and `b`, inserting
/// both as nodes where they are missing. It returns the old weight, that is
/// `Some(())` exactly when the edge was there before.
#[verifier::external_body]
pub(crate) fn graph_add_edge(g: &mut CellGraph, a: (i32, i32), b: (i32, i32)) -> (r: Option<()>)
    ensures
        graph_edges(*final(g)) == graph_edges(*old(g)).insert((a, b)).insert((b, a)),
        graph_nodes(*final(g)) == graph_nodes(*old(g)).insert(a).insert(b),
        r is Some <==> graph_edges(*old(g)).contains((a, b)),
{
    g.add_edge(a, b, ())
}

/// `GraphMap::contains_edge`: whether an edge joins `a` and `b`.
#[verifier::external_body]
pub(crate) fn graph_contains_edge(g: &CellGraph, a: (i32, i32), b: (i32, i32)) -> (r: bool)
    ensures
        r == graph_edges(*g).contains((a, b)),
{
    g.contains_edge(a, b)
}

/// The number of items that `GraphMap::neighbors(a)` yields; it is zero
/// exactly when no edge touches `a` (also when `a` is not a node). How large
/// a non-zero count is, is left unsaid.
#[verifier::external_body]
pub(crate) fn graph_neighbor_count(g: &CellGraph, a: (i32, i32)) -> (r: usize)
    ensures
        r == 0 <==> (forall|b: (i32, i32)| !graph_edges(*g).contains((a, b))),
{
    g.neighbors(a).count()
}

} // verus!
