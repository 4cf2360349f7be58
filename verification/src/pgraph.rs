//! Trusted boundary to petgraph: the adjacency structure that stores the
//! built graph, and its dot renderer. The contracts state what petgraph's
//! source shows of each call, over the names `graph_nodes` and
//! `graph_edges` for the structure's contents.

use vstd::prelude::*;

use petgraph::visit::EdgeRef;

use crate::graph::{edges_wf, upsert_edge};

verus! {

#[verifier::external_type_specification]
#[verifier::external_body]
#[verifier::reject_recursive_types(N)]
#[verifier::reject_recursive_types(E)]
#[verifier::reject_recursive_types(Ty)]
#[verifier::reject_recursive_types(Ix)]
pub struct ExGraph<N, E, Ty, Ix>(petgraph::graph::Graph<N, E, Ty, Ix>);

#[verifier::external_type_specification]
#[verifier::external_body]
pub struct ExDirected(petgraph::Directed);

/// The labels of the graph's nodes, in node-index order.
pub uninterp spec fn graph_nodes(g: petgraph::graph::Graph<String, String>) -> Seq<Seq<char>>;

/// The graph's edges in edge-index order: source index, target index, label.
pub uninterp spec fn graph_edges(g: petgraph::graph::Graph<String, String>) -> Seq<
    (int, int, Seq<char>),
>;

/// Relies on petgraph's Graph::new: a graph with no nodes and no edges.
#[verifier::external_body]
pub(crate) fn pg_new() -> (g: petgraph::graph::Graph<String, String>)
    ensures
        graph_nodes(g) == Seq::<Seq<char>>::empty(),
        graph_edges(g) == Seq::<(int, int, Seq<char>)>::empty(),
{
    petgraph::graph::Graph::new()
}

/// Relies on petgraph's Graph::add_node: appends a node holding `w` and
/// returns its index, the previous node count. Stays under the index
/// capacity, so the call cannot fail.
#[verifier::external_body]
pub(crate) fn pg_add_node(g: &mut petgraph::graph::Graph<String, String>, w: String) -> (idx:
    usize)
    requires
        graph_nodes(*old(g)).len() < 0xffff_fffe,
    ensures
        graph_nodes(*final(g)) == graph_nodes(*old(g)).push(w@),
        graph_edges(*final(g)) == graph_edges(*old(g)),
        idx == graph_nodes(*old(g)).len(),
{
    g.add_node(w).index()
}

/// Relies on petgraph's Graph::update_edge: when an edge already joins `a`
/// to `b` — at most one can, by the precondition — its label becomes `w`;
/// otherwise the edge (a, b, w) is appended. Under the node and edge
/// bounds the call cannot fail.
#[verifier::external_body]
pub(crate) fn pg_update_edge(
    g: &mut petgraph::graph::Graph<String, String>,
    a: usize,
    b: usize,
    w: String,
)
    requires
        a < graph_nodes(*old(g)).len(),
        b < graph_nodes(*old(g)).len(),
        graph_edges(*old(g)).len() < 0xffff_fffe,
        edges_wf(graph_edges(*old(g)), graph_nodes(*old(g)).len() as int),
    ensures
        graph_nodes(*final(g)) == graph_nodes(*old(g)),
        graph_edges(*final(g)) == upsert_edge(graph_edges(*old(g)), a as int, b as int, w@),
{
    let _ = g.update_edge(
        petgraph::graph::NodeIndex::new(a),
        petgraph::graph::NodeIndex::new(b),
        w,
    );
}

/// Relies on petgraph's edge_references: every edge's source index, target
/// index and label, in edge-index order.
#[verifier::external_body]
pub(crate) fn pg_edges(g: &petgraph::graph::Graph<String, String>) -> (r: Vec<
    (usize, usize, String),
>)
    ensures
        r@.len() == graph_edges(*g).len(),
        forall|i: int|
            0 <= i < r@.len() ==> (#[trigger] r@[i]).0 as int == graph_edges(*g)[i].0
                && r@[i].1 as int == graph_edges(*g)[i].1 && r@[i].2@ == graph_edges(*g)[i].2,
{
    g.edge_references().map(
        |e| (e.source().index(), e.target().index(), e.weight().clone()),
    ).collect()
}

/// What petgraph's dot renderer prints: a function of the graph's nodes and
/// edges alone.
pub uninterp spec fn dot_of(nodes: Seq<Seq<char>>, edges: Seq<(int, int, Seq<char>)>) -> Seq<char>;

/// Relies on petgraph's Dot: renders the graph in dot syntax, determined by
/// the graph's nodes and edges.
#[verifier::external_body]
pub(crate) fn pg_dot(g: &petgraph::graph::Graph<String, String>) -> (r: String)
    ensures
        r@ == dot_of(graph_nodes(*g), graph_edges(*g)),
{
    format!("{:?}", petgraph::dot::Dot::with_config(g, &[]))
}

} // verus!
