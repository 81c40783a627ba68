//! Strongly connected components of a directed graph on numbered nodes.
//!
//! The graph and the search for its components are petgraph's. What this
//! module claims of them is stated here and believed, not proved; everything
//! that is built on it is proved from these claims.

use petgraph::graphmap::DiGraphMap;
use vstd::prelude::*;

verus! {

#[verifier::external_type_specification]
#[verifier::external_body]
#[verifier::reject_recursive_types(N)]
#[verifier::reject_recursive_types(E)]
#[verifier::reject_recursive_types(Ty)]
#[verifier::reject_recursive_types(S)]
pub struct ExGraphMap<N, E, Ty, S: core::hash::BuildHasher>(
    petgraph::graphmap::GraphMap<N, E, Ty, S>,
);

#[verifier::external_type_specification]
#[verifier::external_body]
pub struct ExDirected(petgraph::Directed);

/// The edges that a graph holds, each as the pair of its ends.
pub uninterp spec fn graph_edges(g: DiGraphMap<usize, i32>) -> Set<(usize, usize)>;

/// `n` is an end of some edge.
pub open spec fn is_node(edges: Set<(usize, usize)>, n: usize) -> bool {
    exists|m: usize| #[trigger] edges.contains((n, m)) || edges.contains((m, n))
}

/// `path` follows edges from its first node to its last.
pub open spec fn is_walk(edges: Set<(usize, usize)>, path: Seq<usize>) -> bool {
    &&& path.len() > 0
    &&& forall|i: int| 0 <= i < path.len() - 1 ==> edges.contains((#[trigger] path[i], path[i + 1]))
}

/// `b` can be reached from `a` along edges; every node from itself.
pub open spec fn connects(edges: Set<(usize, usize)>, a: usize, b: usize) -> bool {
    exists|path: Seq<usize>| #[trigger] is_walk(edges, path) && path[0] == a && path.last() == b
}

/// `parts` are the strongly connected components of the graph with these
/// edges: no part is empty, every node is in one part, at one place, and two
/// nodes are in the same part exactly if each can be reached from the other.
pub open spec fn are_components(edges: Set<(usize, usize)>, parts: Seq<Vec<usize>>) -> bool {
    &&& forall|i: int| 0 <= i < parts.len() ==> (#[trigger] parts[i])@.len() > 0
    &&& forall|i: int, a: int|
        0 <= i < parts.len() && 0 <= a < parts[i]@.len() ==> is_node(edges, #[trigger] parts[i]@[a])
    &&& forall|n: usize|
        is_node(edges, n) ==> exists|i: int, a: int|
            0 <= i < parts.len() && 0 <= a < parts[i]@.len() && #[trigger] parts[i]@[a] == n
    &&& forall|i: int, a: int, j: int, b: int|
        0 <= i < parts.len() && 0 <= a < parts[i]@.len() && 0 <= j < parts.len() && 0 <= b
            < parts[j]@.len() && #[trigger] parts[i]@[a] == #[trigger] parts[j]@[b] ==> i == j && a
            == b
    &&& forall|i: int, a: int, j: int, b: int|
        0 <= i < parts.len() && 0 <= a < parts[i]@.len() && 0 <= j < parts.len() && 0 <= b
            < parts[j]@.len() ==> (i == j <==> connects(
            edges,
            #[trigger] parts[i]@[a],
            #[trigger] parts[j]@[b],
        ) && connects(edges, parts[j]@[b], parts[i]@[a]))
}

/// Calls `DiGraphMap::new`. The contract claims that the new graph has no
/// edge.
#[verifier::external_body]
pub(crate) fn new_graph() -> (g: DiGraphMap<usize, i32>)
    ensures
        graph_edges(g) == Set::<(usize, usize)>::empty(),
{
    DiGraphMap::new()
}

/// Calls `GraphMap::add_edge`. The contract claims that the graph then holds
/// the edge from `a` to `b` beside those it held, and that the old weight is
/// returned exactly if it held that edge before.
#[verifier::external_body]
pub(crate) fn add_edge(g: &mut DiGraphMap<usize, i32>, a: usize, b: usize, weight: i32) -> (old_weight:
    Option<i32>)
    ensures
        graph_edges(*final(g)) == graph_edges(*old(g)).insert((a, b)),
        old_weight.is_some() == graph_edges(*old(g)).contains((a, b)),
{
    g.add_edge(a, b, weight)
}

/// Calls `petgraph::algo::kosaraju_scc`. The contract claims that the result
/// lists the strongly connected components of the graph, none of them empty;
/// it claims nothing of their order, nor of the order of the nodes within
/// one.
#[verifier::external_body]
pub(crate) fn kosaraju_scc(g: &DiGraphMap<usize, i32>) -> (parts: Vec<Vec<usize>>)
    ensures
        are_components(graph_edges(*g), parts@),
{
    petgraph::algo::kosaraju_scc(g)
}

} // verus!
