//! The directed label graph: a pure model of node deduplication and
//! last-write-wins edge insertion, and the trusted boundary to the petgraph
//! structure that stores the built graph and renders its dot text.

use vstd::prelude::*;

verus! {

/// The mathematical contents of a vector of labels.
pub open spec fn labels_view(v: Seq<Vec<char>>) -> Seq<Seq<char>> {
    v.map(|i: int, x: Vec<char>| x@)
}

/// No label occurs twice.
pub open spec fn nodes_distinct(nodes: Seq<Seq<char>>) -> bool {
    forall|i: int, j: int| 0 <= i < j < nodes.len() ==> nodes[i] != nodes[j]
}

/// Every edge joins existing nodes, and no ordered node pair carries two
/// edges.
pub open spec fn edges_wf(edges: Seq<(int, int, Seq<char>)>, n: int) -> bool {
    &&& forall|i: int|
        0 <= i < edges.len() ==> 0 <= (#[trigger] edges[i]).0 < n && 0 <= edges[i].1 < n
    &&& forall|i: int, j: int|
        0 <= i < j < edges.len() ==> !((#[trigger] edges[i]).0 == (#[trigger] edges[j]).0
            && edges[i].1 == edges[j].1)
}

/// The index of the first node holding label `l`, or -1 when there is none.
pub open spec fn node_index_of(nodes: Seq<Seq<char>>, l: Seq<char>) -> int
    decreases nodes.len(),
{
    if nodes.len() == 0 {
        -1
    } else if nodes[0] == l {
        0
    } else {
        let r = node_index_of(nodes.skip(1), l);
        if r < 0 {
            -1
        } else {
            r + 1
        }
    }
}

/// Looking a label up finds it exactly when it is present, at its first
/// position.
pub proof fn lemma_node_index_of(nodes: Seq<Seq<char>>, l: Seq<char>)
    ensures
        -1 <= node_index_of(nodes, l) < nodes.len(),
        node_index_of(nodes, l) >= 0 <==> nodes.contains(l),
        node_index_of(nodes, l) >= 0 ==> nodes[node_index_of(nodes, l)] == l,
        forall|k: int| 0 <= k < node_index_of(nodes, l) ==> nodes[k] != l,
    decreases nodes.len(),
{
    if nodes.len() == 0 {
    } else if nodes[0] == l {
        assert(nodes.contains(l));
    } else {
        lemma_node_index_of(nodes.skip(1), l);
        let r1 = node_index_of(nodes.skip(1), l);
        if r1 >= 0 {
            assert(nodes[r1 + 1] == nodes.skip(1)[r1]);
            assert(nodes.contains(l));
            assert forall|k: int| 0 <= k < r1 + 1 implies nodes[k] != l by {
                if k > 0 {
                    assert(nodes[k] == nodes.skip(1)[k - 1]);
                }
            }
        } else {
            if nodes.contains(l) {
                let w = choose|w: int| 0 <= w < nodes.len() && nodes[w] == l;
                assert(w > 0);
                assert(nodes.skip(1)[w - 1] == l);
                assert(nodes.skip(1).contains(l));
            }
        }
    }
}

/// A label's position is unmoved by appending another node; a fresh label
/// lands at the end.
pub proof fn lemma_node_index_push(nodes: Seq<Seq<char>>, y: Seq<char>, x: Seq<char>)
    ensures
        nodes.contains(x) ==> node_index_of(nodes.push(y), x) == node_index_of(nodes, x),
        !nodes.contains(x) && x == y ==> node_index_of(nodes.push(y), x) == nodes.len(),
        !nodes.contains(x) && x != y ==> node_index_of(nodes.push(y), x) == -1,
    decreases nodes.len(),
{
    lemma_node_index_of(nodes, x);
    lemma_node_index_of(nodes.push(y), x);
    if nodes.len() == 0 {
        assert(nodes.push(y)[0] == y);
        if x == y {
            assert(node_index_of(nodes.push(y), x) == 0);
        }
    } else {
        assert(nodes.push(y)[0] == nodes[0]);
        assert(nodes.push(y).skip(1) =~= nodes.skip(1).push(y));
        lemma_node_index_push(nodes.skip(1), y, x);
        lemma_node_index_of(nodes.skip(1), x);
        if nodes.contains(x) && nodes[0] != x {
            let w = choose|w: int| 0 <= w < nodes.len() && nodes[w] == x;
            assert(w > 0);
            assert(nodes.skip(1)[w - 1] == x);
            assert(nodes.skip(1).contains(x));
        }
        if !nodes.contains(x) {
            assert(forall|k: int|
                0 <= k < nodes.skip(1).len() ==> nodes.skip(1)[k] == nodes[k + 1]);
            assert(!nodes.skip(1).contains(x));
        }
    }
}

/// Adds a node for `l` unless one already exists: first seen wins.
pub open spec fn insert_node(nodes: Seq<Seq<char>>, l: Seq<char>) -> Seq<Seq<char>> {
    if nodes.contains(l) {
        nodes
    } else {
        nodes.push(l)
    }
}

/// The index of the first edge joining `a` to `b`, or -1 when there is none.
pub open spec fn find_edge(edges: Seq<(int, int, Seq<char>)>, a: int, b: int) -> int
    decreases edges.len(),
{
    if edges.len() == 0 {
        -1
    } else if edges[0].0 == a && edges[0].1 == b {
        0
    } else {
        let r = find_edge(edges.skip(1), a, b);
        if r < 0 {
            -1
        } else {
            r + 1
        }
    }
}

/// Looking an ordered pair up finds an edge exactly when one is present.
pub proof fn lemma_find_edge(edges: Seq<(int, int, Seq<char>)>, a: int, b: int)
    ensures
        -1 <= find_edge(edges, a, b) < edges.len(),
        find_edge(edges, a, b) >= 0 ==> edges[find_edge(edges, a, b)].0 == a && edges[find_edge(
            edges,
            a,
            b,
        )].1 == b,
        find_edge(edges, a, b) == -1 <==> forall|i: int|
            0 <= i < edges.len() ==> !((#[trigger] edges[i]).0 == a && edges[i].1 == b),
    decreases edges.len(),
{
    if edges.len() > 0 {
        lemma_find_edge(edges.skip(1), a, b);
        assert(forall|k: int|
            0 <= k < edges.skip(1).len() ==> #[trigger] edges.skip(1)[k] == edges[k + 1]);
        let r1 = find_edge(edges.skip(1), a, b);
        if edges[0].0 == a && edges[0].1 == b {
        } else if r1 >= 0 {
            assert(edges[r1 + 1] == edges.skip(1)[r1]);
        } else {
            assert forall|i: int|
                0 <= i < edges.len() implies !((#[trigger] edges[i]).0 == a && edges[i].1
                == b) by {
                if i > 0 {
                    assert(edges.skip(1)[i - 1] == edges[i]);
                }
            }
        }
    }
}

/// Sets the label of the pair's edge, creating the edge when the pair has
/// none: the latest label always wins.
pub open spec fn upsert_edge(
    edges: Seq<(int, int, Seq<char>)>,
    a: int,
    b: int,
    w: Seq<char>,
) -> Seq<(int, int, Seq<char>)> {
    let i = find_edge(edges, a, b);
    if i >= 0 {
        edges.update(i, (a, b, w))
    } else {
        edges.push((a, b, w))
    }
}

/// Upserting preserves well-formedness, leaves the pair's edge carrying the
/// new label, and touches no other pair.
pub proof fn lemma_upsert_edge(edges: Seq<(int, int, Seq<char>)>, n: int, a: int, b: int, w: Seq<char>)
    requires
        edges_wf(edges, n),
        0 <= a < n,
        0 <= b < n,
    ensures
        edges_wf(upsert_edge(edges, a, b, w), n),
        edges.len() <= upsert_edge(edges, a, b, w).len() <= edges.len() + 1,
        ({
            let es = upsert_edge(edges, a, b, w);
            let i = find_edge(edges, a, b);
            exists|k: int| 0 <= k < es.len() && es[k] == (a, b, w)
        }),
{
    lemma_find_edge(edges, a, b);
    let i = find_edge(edges, a, b);
    let es = upsert_edge(edges, a, b, w);
    if i >= 0 {
        assert(es[i] == (a, b, w));
    } else {
        assert(es[edges.len() as int] == (a, b, w));
    }
}

/// One surviving row, inserted: nodes for its labels (first seen wins), then
/// the edge from its from-node to its to-node, labeled with its predicate.
pub open spec fn insert_row(
    nodes: Seq<Seq<char>>,
    edges: Seq<(int, int, Seq<char>)>,
    t: (Seq<char>, Seq<char>, Seq<char>),
) -> (Seq<Seq<char>>, Seq<(int, int, Seq<char>)>) {
    let ns = insert_node(insert_node(nodes, t.0), t.1);
    let a = node_index_of(ns, t.0);
    let b = node_index_of(ns, t.1);
    (ns, upsert_edge(edges, a, b, t.2))
}

/// The graph grown from `nodes` and `edges` by inserting every row in order.
/// Rows are (from-label, to-label, predicate-label) triples.
pub open spec fn build_graph(
    nodes: Seq<Seq<char>>,
    edges: Seq<(int, int, Seq<char>)>,
    rows: Seq<(Seq<char>, Seq<char>, Seq<char>)>,
) -> (Seq<Seq<char>>, Seq<(int, int, Seq<char>)>)
    decreases rows.len(),
{
    if rows.len() == 0 {
        (nodes, edges)
    } else {
        let p = build_graph(nodes, edges, rows.drop_last());
        insert_row(p.0, p.1, rows.last())
    }
}

/// The from- and to-labels of the rows, flattened in processing order.
pub open spec fn touched(rows: Seq<(Seq<char>, Seq<char>, Seq<char>)>) -> Seq<Seq<char>>
    decreases rows.len(),
{
    if rows.len() == 0 {
        Seq::empty()
    } else {
        touched(rows.drop_last()) + seq![rows.last().0, rows.last().1]
    }
}

/// Inserting one row preserves distinctness and well-formedness, and grows
/// the node labels by exactly the row's labels not yet present.
pub proof fn lemma_insert_row_wf(
    nodes: Seq<Seq<char>>,
    edges: Seq<(int, int, Seq<char>)>,
    t: (Seq<char>, Seq<char>, Seq<char>),
)
    requires
        nodes_distinct(nodes),
        edges_wf(edges, nodes.len() as int),
    ensures
        nodes_distinct(insert_row(nodes, edges, t).0),
        edges_wf(insert_row(nodes, edges, t).1, insert_row(nodes, edges, t).0.len() as int),
        nodes.len() <= insert_row(nodes, edges, t).0.len() <= nodes.len() + 2,
        edges.len() <= insert_row(nodes, edges, t).1.len() <= edges.len() + 1,
        forall|l: Seq<char>|
            #[trigger] insert_row(nodes, edges, t).0.contains(l) <==> nodes.contains(l) || l
                == t.0 || l == t.1,
{
    let ns1 = insert_node(nodes, t.0);
    let ns = insert_node(ns1, t.1);
    assert forall|l: Seq<char>| ns1.contains(l) <==> nodes.contains(l) || l == t.0 by {
        if !nodes.contains(t.0) {
            lemma_node_index_push(nodes, t.0, l);
            lemma_node_index_of(nodes, l);
            lemma_node_index_of(nodes.push(t.0), l);
        }
    }
    if !nodes.contains(t.0) {
        assert(nodes_distinct(ns1)) by {
            assert(forall|i: int| 0 <= i < nodes.len() ==> ns1[i] == nodes[i]);
        }
    }
    assert forall|l: Seq<char>| ns.contains(l) <==> ns1.contains(l) || l == t.1 by {
        if !ns1.contains(t.1) {
            lemma_node_index_push(ns1, t.1, l);
            lemma_node_index_of(ns1, l);
            lemma_node_index_of(ns1.push(t.1), l);
        }
    }
    if !ns1.contains(t.1) {
        assert(nodes_distinct(ns)) by {
            assert(forall|i: int| 0 <= i < ns1.len() ==> ns[i] == ns1[i]);
        }
    }
    let a = node_index_of(ns, t.0);
    let b = node_index_of(ns, t.1);
    lemma_node_index_of(ns, t.0);
    lemma_node_index_of(ns, t.1);
    assert(ns.contains(t.0));
    assert(ns.contains(t.1));
    assert(edges_wf(edges, ns.len() as int));
    lemma_upsert_edge(edges, ns.len() as int, a, b, t.2);
}

/// Law (dedup invariant): building from any sequence of rows keeps node
/// labels distinct, and the labels afterwards are the initial ones together
/// with every from/to label of the rows — so the number of nodes equals the
/// number of distinct labels referenced.
pub proof fn lemma_build_dedup(
    nodes: Seq<Seq<char>>,
    edges: Seq<(int, int, Seq<char>)>,
    rows: Seq<(Seq<char>, Seq<char>, Seq<char>)>,
)
    requires
        nodes_distinct(nodes),
        edges_wf(edges, nodes.len() as int),
    ensures
        nodes_distinct(build_graph(nodes, edges, rows).0),
        edges_wf(
            build_graph(nodes, edges, rows).1,
            build_graph(nodes, edges, rows).0.len() as int,
        ),
        forall|l: Seq<char>|
            #[trigger] build_graph(nodes, edges, rows).0.contains(l) <==> nodes.contains(l)
                || touched(rows).contains(l),
    decreases rows.len(),
{
    if rows.len() == 0 {
        assert(touched(rows) =~= Seq::<Seq<char>>::empty());
    } else {
        lemma_build_dedup(nodes, edges, rows.drop_last());
        let p = build_graph(nodes, edges, rows.drop_last());
        assert(edges_wf(p.1, p.0.len() as int));
        lemma_insert_row_wf(p.0, p.1, rows.last());
        let q = insert_row(p.0, p.1, rows.last());
        assert(build_graph(nodes, edges, rows) == q);
        let t = touched(rows);
        let td = touched(rows.drop_last());
        assert(t == td + seq![rows.last().0, rows.last().1]);
        assert forall|l: Seq<char>|
            #[trigger] q.0.contains(l) <==> nodes.contains(l) || t.contains(l) by {
            assert(t[td.len() as int] == rows.last().0);
            assert(t[td.len() as int + 1] == rows.last().1);
            assert(insert_row(p.0, p.1, rows.last()).0.contains(l) <==> p.0.contains(l) || l
                == rows.last().0 || l == rows.last().1);
            assert(build_graph(nodes, edges, rows.drop_last()).0.contains(l)
                <==> nodes.contains(l) || touched(rows.drop_last()).contains(l));
            if t.contains(l) {
                let w = choose|w: int| 0 <= w < t.len() && t[w] == l;
                if w < td.len() {
                    assert(td[w] == l);
                    assert(td.contains(l));
                }
            }
            if td.contains(l) {
                let w = choose|w: int| 0 <= w < td.len() && td[w] == l;
                assert(t[w] == l);
                assert(t.contains(l));
            }
        }
    }
}

/// Law (last write wins): two rows joining the same ordered label pair
/// leave exactly one edge for that pair, and its label is the predicate of
/// the row processed last.
pub proof fn lemma_last_write_wins(
    r1: (Seq<char>, Seq<char>, Seq<char>),
    r2: (Seq<char>, Seq<char>, Seq<char>),
)
    requires
        r1.0 == r2.0,
        r1.1 == r2.1,
    ensures
        ({
            let p = build_graph(Seq::empty(), Seq::empty(), seq![r1, r2]);
            p.1.len() == 1 && p.1[0].2 == r2.2
        }),
{
    let rows = seq![r1, r2];
    let e0 = Seq::<(int, int, Seq<char>)>::empty();
    let n0 = Seq::<Seq<char>>::empty();
    assert(rows.drop_last() =~= seq![r1]);
    assert(seq![r1].drop_last() =~= Seq::<(Seq<char>, Seq<char>, Seq<char>)>::empty());
    assert(build_graph(n0, e0, Seq::empty()) == (n0, e0));
    let p1 = build_graph(n0, e0, seq![r1]);
    assert(p1 == insert_row(n0, e0, r1));
    lemma_insert_row_wf(n0, e0, r1);
    let ns1 = insert_node(insert_node(n0, r1.0), r1.1);
    assert(p1.0 == ns1);
    let a = node_index_of(ns1, r1.0);
    let b = node_index_of(ns1, r1.1);
    assert(find_edge(e0, a, b) == -1);
    assert(p1.1 =~= seq![(a, b, r1.2)]);
    let p2 = build_graph(n0, e0, rows);
    assert(rows.last() == r2);
    assert(rows.drop_last() == seq![r1]);
    assert(p2 == insert_row(p1.0, p1.1, r2));
    assert(insert_row(n0, e0, r1).0.contains(r2.0) <==> n0.contains(r2.0) || r2.0 == r1.0 || r2.0
        == r1.1);
    assert(insert_row(n0, e0, r1).0.contains(r2.1) <==> n0.contains(r2.1) || r2.1 == r1.0 || r2.1
        == r1.1);
    assert(ns1.contains(r2.0));
    assert(insert_node(ns1, r2.0) == ns1);
    assert(ns1.contains(r2.1));
    assert(insert_node(insert_node(ns1, r2.0), r2.1) == ns1);
    assert(p1.1[0] == (a, b, r1.2));
    assert(find_edge(p1.1, a, b) == 0);
    assert(p2.1 =~= seq![(a, b, r2.2)]);
}

} // verus!
