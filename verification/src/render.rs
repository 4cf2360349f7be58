//! Rendering the built graph as d2 diagram text: one `from -> to: pred`
//! line per edge, then one `label.style.fill: "color"` line per cached
//! node color.

use vstd::prelude::*;

use crate::graph::{edges_wf, labels_view};
use crate::normalize::view_table;
use crate::pgraph::{graph_edges, graph_nodes, pg_edges};
use crate::strings::{chars_of, push_all, string_of};

verus! {

/// The d2 line of one edge: `from -> to: predicate`, newline-terminated.
pub open spec fn d2_edge_line(nodes: Seq<Seq<char>>, e: (int, int, Seq<char>)) -> Seq<char> {
    nodes[e.0] + " -> "@ + nodes[e.1] + ": "@ + e.2 + "\n"@
}

/// Every edge's line, in edge order.
pub open spec fn d2_edge_lines(
    nodes: Seq<Seq<char>>,
    edges: Seq<(int, int, Seq<char>)>,
) -> Seq<char>
    decreases edges.len(),
{
    if edges.len() == 0 {
        Seq::empty()
    } else {
        d2_edge_line(nodes, edges[0]) + d2_edge_lines(nodes, edges.skip(1))
    }
}

/// The d2 line of one node color: `label.style.fill: "color"`.
pub open spec fn d2_color_line(c: (Seq<char>, Seq<char>)) -> Seq<char> {
    c.0 + ".style.fill: \""@ + c.1 + "\"\n"@
}

/// Every cached color's line, in cache order.
pub open spec fn d2_color_lines(colors: Seq<(Seq<char>, Seq<char>)>) -> Seq<char>
    decreases colors.len(),
{
    if colors.len() == 0 {
        Seq::empty()
    } else {
        d2_color_line(colors[0]) + d2_color_lines(colors.skip(1))
    }
}

/// The whole d2 text: the edge lines, then the color lines.
pub open spec fn d2_spec(
    nodes: Seq<Seq<char>>,
    edges: Seq<(int, int, Seq<char>)>,
    colors: Seq<(Seq<char>, Seq<char>)>,
) -> Seq<char> {
    d2_edge_lines(nodes, edges) + d2_color_lines(colors)
}

/// Renders the graph's d2 text from the stored graph, the node label table
/// and the color cache.
pub(crate) fn render_d2(
    g: &petgraph::graph::Graph<String, String>,
    nodes_map: &Vec<Vec<char>>,
    colors: &Vec<(Vec<char>, Vec<char>)>,
) -> (r: String)
    requires
        labels_view(nodes_map@) == graph_nodes(*g),
        edges_wf(graph_edges(*g), graph_nodes(*g).len() as int),
    ensures
        r@ == d2_spec(graph_nodes(*g), graph_edges(*g), view_table(colors@)),
{
    let ghost ns = graph_nodes(*g);
    let ghost ev = graph_edges(*g);
    let edges = pg_edges(g);
    let mut out: Vec<char> = Vec::new();
    proof {
        assert(ev.skip(0) =~= ev);
        assert(Seq::<char>::empty() + d2_edge_lines(ns, ev) =~= d2_edge_lines(ns, ev));
    }
    let mut i: usize = 0;
    while i < edges.len()
        invariant
            edges@.len() == ev.len(),
            forall|k: int|
                0 <= k < ev.len() ==> (#[trigger] edges@[k]).0 as int == ev[k].0 && edges@[k].1
                    as int == ev[k].1 && edges@[k].2@ == ev[k].2,
            labels_view(nodes_map@) == ns,
            edges_wf(ev, ns.len() as int),
            i <= ev.len(),
            out@ + d2_edge_lines(ns, ev.skip(i as int)) == d2_edge_lines(ns, ev),
        decreases ev.len() - i,
    {
        let ghost out0 = out@;
        let a = edges[i].0;
        let b = edges[i].1;
        proof {
            assert(ev.skip(i as int)[0] == ev[i as int]);
            assert(ev.skip(i as int).skip(1) =~= ev.skip(i + 1));
            assert(0 <= ev[i as int].0 < ns.len());
            assert(0 <= ev[i as int].1 < ns.len());
            assert(labels_view(nodes_map@)[a as int] == nodes_map@[a as int]@);
            assert(labels_view(nodes_map@)[b as int] == nodes_map@[b as int]@);
        }
        push_all(&mut out, &nodes_map[a]);
        let sep1 = chars_of(" -> ");
        push_all(&mut out, &sep1);
        push_all(&mut out, &nodes_map[b]);
        let sep2 = chars_of(": ");
        push_all(&mut out, &sep2);
        let w = chars_of(edges[i].2.as_str());
        push_all(&mut out, &w);
        let nl = chars_of("\n");
        push_all(&mut out, &nl);
        proof {
            assert(out@ =~= out0 + d2_edge_line(ns, ev[i as int]));
            assert((out0 + d2_edge_line(ns, ev[i as int])) + d2_edge_lines(ns, ev.skip(i + 1))
                =~= out0 + (d2_edge_line(ns, ev[i as int]) + d2_edge_lines(ns, ev.skip(i + 1))));
        }
        i += 1;
    }
    let ghost cv = view_table(colors@);
    proof {
        assert(ev.skip(ev.len() as int) =~= Seq::<(int, int, Seq<char>)>::empty());
        assert(out@ + Seq::<char>::empty() =~= out@);
        assert(cv.skip(0) =~= cv);
    }
    let mut j: usize = 0;
    while j < colors.len()
        invariant
            colors@.len() == cv.len(),
            cv == view_table(colors@),
            j <= cv.len(),
            out@ + d2_color_lines(cv.skip(j as int)) == d2_edge_lines(ns, ev) + d2_color_lines(
                cv,
            ),
        decreases cv.len() - j,
    {
        let ghost out0 = out@;
        proof {
            assert(cv.skip(j as int)[0] == cv[j as int]);
            assert(cv.skip(j as int).skip(1) =~= cv.skip(j + 1));
            assert(cv[j as int] == (colors@[j as int].0@, colors@[j as int].1@));
        }
        push_all(&mut out, &colors[j].0);
        let sep3 = chars_of(".style.fill: \"");
        push_all(&mut out, &sep3);
        push_all(&mut out, &colors[j].1);
        let sep4 = chars_of("\"\n");
        push_all(&mut out, &sep4);
        proof {
            assert(out@ =~= out0 + d2_color_line(cv[j as int]));
            assert((out0 + d2_color_line(cv[j as int])) + d2_color_lines(cv.skip(j + 1)) =~= out0
                + (d2_color_line(cv[j as int]) + d2_color_lines(cv.skip(j + 1))));
        }
        j += 1;
    }
    proof {
        assert(cv.skip(cv.len() as int) =~= Seq::<(Seq<char>, Seq<char>)>::empty());
        assert(out@ + Seq::<char>::empty() =~= out@);
        assert(out@ == d2_spec(ns, ev, cv));
    }
    string_of(&out)
}

} // verus!
