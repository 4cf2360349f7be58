//! The visualizer: consumes relationship rows, normalizes terms into labels,
//! deduplicates nodes, resolves and caches a color per label, builds the
//! directed graph with last-write-wins edges, and renders both diagram
//! texts.

use vstd::prelude::*;

use crate::color::{
    cache_keys, cache_lookup, build_ask_query, first_match_color, is_possible_color, keys_after,
};
use crate::errors::GraphError;
use crate::filter::{surviving, EdgeFilter};
use crate::graph::{
    build_graph, edges_wf, insert_node, insert_row, labels_view, lemma_node_index_of,
    lemma_node_index_push, node_index_of, nodes_distinct, touched, upsert_edge,
};
use crate::normalize::{
    default_prefixes, default_prefixes_spec, rewrite_chars, rewrite_spec, view_table,
};
use crate::oracle::{rows_view, AncestryOracle, TermRow};
use crate::pgraph::{dot_of, graph_edges, graph_nodes, pg_add_node, pg_dot, pg_new, pg_update_edge};
use crate::render::{d2_spec, render_d2};
use crate::strings::{chars_of, chars_eq, copy_chars, string_of};

verus! {

/// The most rows one build accepts, and the most nodes and recorded edges a
/// visualizer may already hold before a build: keeps every graph index well
/// under the structure's capacity.
pub const MAX_INPUT: usize = 0x1000_0000;

/// Whether a build must be refused for capacity: too many rows, or too much
/// already built.
pub open spec fn over_capacity(n_rows: int, n_nodes: int, hint: int) -> bool {
    n_rows > MAX_INPUT as int || n_nodes > MAX_INPUT as int || hint > MAX_INPUT as int
}

/// The label triples of rows: each term text normalized against the table.
pub open spec fn normalized_triples(
    rows: Seq<(Seq<char>, Seq<char>, Seq<char>)>,
    table: Seq<(Seq<char>, Seq<char>)>,
) -> Seq<(Seq<char>, Seq<char>, Seq<char>)> {
    rows.map(
        |i: int, r: (Seq<char>, Seq<char>, Seq<char>)|
            (rewrite_spec(r.0, table), rewrite_spec(r.1, table), rewrite_spec(r.2, table)),
    )
}

/// One surviving row, prepared: the raw term texts (for ancestry queries)
/// and the normalized labels.
struct WorkRow {
    from_raw: Vec<char>,
    to_raw: Vec<char>,
    from: Vec<char>,
    to: Vec<char>,
    pred: Vec<char>,
}

/// The label triples of prepared rows.
spec fn triples_view(ts: Seq<WorkRow>) -> Seq<(Seq<char>, Seq<char>, Seq<char>)> {
    ts.map(|i: int, t: WorkRow| (t.from@, t.to@, t.pred@))
}

/// Extracts a class-relationship graph from relationship rows and renders
/// it. Holds the graph, the node index table, the color cache, the filter,
/// the color rules and the namespace table.
pub struct Visualizer<F: EdgeFilter, O: AncestryOracle> {
    /// Answers ancestry queries; typically backed by the RDF store.
    pub oracle: O,
    /// The directed label graph built so far.
    pub g: petgraph::graph::Graph<String, String>,
    /// The label of each node, at the node's index: the node index table.
    pub nodes_map: Vec<Vec<char>>,
    /// The color cache: one (label, color) entry per resolved label.
    pub colors: Vec<(Vec<char>, Vec<char>)>,
    /// Decides which rows survive.
    pub filter: F,
    /// The ordered (class IRI, color) rules.
    pub rules: Vec<(Vec<char>, Vec<char>)>,
    /// Whether colors are resolved at all; when off, the cache stays empty.
    pub coloring: bool,
    /// The namespace table for label rewriting.
    pub prefixes: Vec<(Vec<char>, Vec<char>)>,
    /// An upper bound on the number of edges ever inserted.
    pub edge_hint: usize,
}

impl<F: EdgeFilter, O: AncestryOracle> Visualizer<F, O> {
    /// Well-formedness: the node table mirrors the graph's nodes, labels are
    /// deduplicated, each ordered node pair has at most one edge, the edge
    /// count is bounded by the hint, and the color cache has one entry per
    /// label, every color being a rule color or the default.
    pub open spec fn wf(&self) -> bool {
        &&& graph_nodes(self.g) == labels_view(self.nodes_map@)
        &&& nodes_distinct(graph_nodes(self.g))
        &&& edges_wf(graph_edges(self.g), graph_nodes(self.g).len() as int)
        &&& graph_edges(self.g).len() <= self.edge_hint as nat
        &&& nodes_distinct(cache_keys(view_table(self.colors@)))
        &&& forall|k: int|
            0 <= k < self.colors@.len() ==> is_possible_color(
                (#[trigger] view_table(self.colors@)[k]).1,
                view_table(self.rules@),
            )
    }

    /// A fresh visualizer: empty graph, empty caches, the given filter,
    /// oracle and color rules, and the fixed namespace table.
    pub fn new(filter: F, oracle: O, rules: Vec<(Vec<char>, Vec<char>)>, coloring: bool) -> (v:
        Self)
        ensures
            v.wf(),
            graph_nodes(v.g) == Seq::<Seq<char>>::empty(),
            graph_edges(v.g) == Seq::<(int, int, Seq<char>)>::empty(),
            v.nodes_map@.len() == 0,
            v.colors@.len() == 0,
            v.filter == filter,
            v.rules == rules,
            v.coloring == coloring,
            v.edge_hint == 0,
            view_table(v.prefixes@) == default_prefixes_spec(),
    {
        let g = pg_new();
        let v = Visualizer {
            oracle,
            g,
            nodes_map: Vec::new(),
            colors: Vec::new(),
            filter,
            rules,
            coloring,
            prefixes: default_prefixes(),
            edge_hint: 0,
        };
        proof {
            assert(labels_view(v.nodes_map@) =~= Seq::<Seq<char>>::empty());
            assert(cache_keys(view_table(v.colors@)) =~= Seq::<Seq<char>>::empty());
        }
        v
    }

    /// Resolves the display color of one class term: one ancestry query per
    /// rule, in the rules' order; the first rule whose query holds gives the
    /// color, and a term no rule matches gets the default. The answers come
    /// from the oracle, so the result is pinned as the first-match color of
    /// whatever answers came back.
    pub fn to_color(&mut self, raw: &Vec<char>) -> (r: Result<Vec<char>, GraphError>)
        ensures
            final(self).g == old(self).g,
            final(self).nodes_map == old(self).nodes_map,
            final(self).colors == old(self).colors,
            final(self).filter == old(self).filter,
            final(self).rules == old(self).rules,
            final(self).coloring == old(self).coloring,
            final(self).prefixes == old(self).prefixes,
            final(self).edge_hint == old(self).edge_hint,
            r matches Ok(c) ==> exists|ans: Seq<bool>|
                ans.len() == old(self).rules@.len() && c@ == crate::color::first_match_spec(
                    ans,
                    view_table(old(self).rules@),
                ),
            r matches Ok(c) ==> is_possible_color(c@, view_table(old(self).rules@)),
            r matches Err(e) ==> e == GraphError::Ancestry,
            old(self).rules@.len() == 0 ==> r is Ok,
    {
        let mut answers: Vec<bool> = Vec::new();
        let mut k: usize = 0;
        while k < self.rules.len()
            invariant
                answers@.len() == k as nat,
                k <= self.rules@.len(),
                self.g == old(self).g,
                self.nodes_map == old(self).nodes_map,
                self.colors == old(self).colors,
                self.filter == old(self).filter,
                self.rules == old(self).rules,
                self.coloring == old(self).coloring,
                self.prefixes == old(self).prefixes,
                self.edge_hint == old(self).edge_hint,
            decreases self.rules@.len() - k,
        {
            let q = build_ask_query(raw, &self.rules[k].0);
            let qs = string_of(&q);
            match self.oracle.ask(qs.as_str()) {
                Ok(b) => answers.push(b),
                Err(_) => {
                    return Err(GraphError::Ancestry);
                },
            }
            k += 1;
        }
        let c = first_match_color(&answers, &self.rules);
        proof {
            crate::color::lemma_first_match_possible(answers@, view_table(self.rules@));
        }
        Ok(c)
    }

    /// Builds the graph from relationship rows: filters each row, normalizes
    /// its terms into labels, resolves and caches a color per new label
    /// (when coloring is on), inserts nodes and edges — one node per
    /// distinct label, at most one edge per ordered pair, last predicate
    /// winning — and renders the d2 and dot texts.
    pub fn create_graph(&mut self, rows: Vec<TermRow>) -> (r: Result<
        (String, String),
        GraphError,
    >)
        requires
            old(self).wf(),
        ensures
            final(self).wf(),
            final(self).filter == old(self).filter,
            final(self).rules == old(self).rules,
            final(self).coloring == old(self).coloring,
            final(self).prefixes == old(self).prefixes,
            (r == Err::<(String, String), GraphError>(GraphError::Capacity)) <==> over_capacity(
                rows@.len() as int,
                graph_nodes(old(self).g).len() as int,
                old(self).edge_hint as int,
            ),
            r matches Err(e) ==> (e == GraphError::Capacity || e == GraphError::Ancestry),
            ((!old(self).coloring || old(self).rules@.len() == 0) && !over_capacity(
                rows@.len() as int,
                graph_nodes(old(self).g).len() as int,
                old(self).edge_hint as int,
            )) ==> r is Ok,
            r matches Err(e) ==> graph_nodes(final(self).g) == graph_nodes(old(self).g)
                && graph_edges(final(self).g) == graph_edges(old(self).g),
            r matches Err(e) && e == GraphError::Ancestry ==> old(self).coloring,
            r matches Ok(out) ==> ({
                let surv = surviving(&old(self).filter, rows_view(rows@));
                let tris = normalized_triples(surv, view_table(old(self).prefixes@));
                &&& (graph_nodes(final(self).g), graph_edges(final(self).g)) == build_graph(
                    graph_nodes(old(self).g),
                    graph_edges(old(self).g),
                    tris,
                )
                &&& (old(self).coloring ==> cache_keys(view_table(final(self).colors@))
                    == keys_after(
                    cache_keys(view_table(old(self).colors@)),
                    touched(tris),
                ))
                &&& (!old(self).coloring ==> final(self).colors@ == old(self).colors@)
                &&& out.0@ == d2_spec(
                    graph_nodes(final(self).g),
                    graph_edges(final(self).g),
                    view_table(final(self).colors@),
                )
                &&& out.1@ == dot_of(graph_nodes(final(self).g), graph_edges(final(self).g))
            }),
    {
        if rows.len() > MAX_INPUT || self.nodes_map.len() > MAX_INPUT || self.edge_hint
            > MAX_INPUT {
            proof {
                assert(graph_nodes(self.g).len() == self.nodes_map@.len());
            }
            return Err(GraphError::Capacity);
        }
        proof {
            assert(graph_nodes(self.g).len() == self.nodes_map@.len());
        }
        let ghost rv = rows_view(rows@);
        let ghost table = view_table(self.prefixes@);

        // Pass 1: filter and normalize. Rejected rows contribute nothing.
        let mut work: Vec<WorkRow> = Vec::new();
        proof {
            assert(rv.take(0) =~= Seq::<(Seq<char>, Seq<char>, Seq<char>)>::empty());
            assert(triples_view(work@) =~= normalized_triples(
                surviving(&self.filter, rv.take(0)),
                table,
            ));
        }
        let mut i: usize = 0;
        while i < rows.len()
            invariant
                *self == *old(self),
                old(self).wf(),
                rv == rows_view(rows@),
                table == view_table(self.prefixes@),
                i <= rows@.len(),
                work@.len() <= i,
                triples_view(work@) == normalized_triples(
                    surviving(&self.filter, rv.take(i as int)),
                    table,
                ),
            decreases rows@.len() - i,
        {
            proof {
                assert(rv.take(i + 1).drop_last() =~= rv.take(i as int));
                assert(rv.take(i + 1).last() == rv[i as int]);
                assert(rv[i as int] == (rows@[i as int].from@, rows@[i as int].to@, rows@[
                    i as int].pred@));
            }
            let keep = self.filter.decide(
                rows[i].from.as_str(),
                rows[i].to.as_str(),
                rows[i].pred.as_str(),
            );
            let ghost surv_i = surviving(&self.filter, rv.take(i as int));
            if keep {
                let fr = chars_of(rows[i].from.as_str());
                let tr = chars_of(rows[i].to.as_str());
                let pr = chars_of(rows[i].pred.as_str());
                let f_lbl = rewrite_chars(&fr, &self.prefixes);
                let t_lbl = rewrite_chars(&tr, &self.prefixes);
                let p_lbl = rewrite_chars(&pr, &self.prefixes);
                let ghost w0 = work@;
                work.push(WorkRow { from_raw: fr, to_raw: tr, from: f_lbl, to: t_lbl, pred: p_lbl });
                proof {
                    assert(surviving(&self.filter, rv.take(i + 1)) == surv_i.push(rv[i as int]));
                    assert(normalized_triples(surv_i.push(rv[i as int]), table)
                        =~= normalized_triples(surv_i, table).push(
                        (
                            rewrite_spec(rv[i as int].0, table),
                            rewrite_spec(rv[i as int].1, table),
                            rewrite_spec(rv[i as int].2, table),
                        ),
                    ));
                    assert(triples_view(work@) =~= triples_view(w0).push(
                        (f_lbl@, t_lbl@, p_lbl@),
                    ));
                }
            } else {
                proof {
                    assert(surviving(&self.filter, rv.take(i + 1)) == surv_i);
                }
            }
            i += 1;
        }
        proof {
            assert(rv.take(rv.len() as int) =~= rv);
        }
        let ghost surv = surviving(&self.filter, rv);
        let ghost tris = normalized_triples(surv, table);
        proof {
            assert(triples_view(work@) == tris);
            crate::filter::lemma_surviving_len(&self.filter, rv);
        }

        // Pass 2: resolve and cache a color per label not yet cached.
        let ghost ck0 = cache_keys(view_table(self.colors@));
        if self.coloring {
            proof {
                assert(tris.take(0) =~= Seq::<(Seq<char>, Seq<char>, Seq<char>)>::empty());
                assert(touched(tris.take(0)) =~= Seq::<Seq<char>>::empty());
            }
            let mut j: usize = 0;
            while j < work.len()
                invariant
                    self.g == old(self).g,
                    self.nodes_map == old(self).nodes_map,
                    self.filter == old(self).filter,
                    self.rules == old(self).rules,
                    self.coloring == old(self).coloring,
                    self.prefixes == old(self).prefixes,
                    self.edge_hint == old(self).edge_hint,
                    old(self).wf(),
                    old(self).coloring,
                    !over_capacity(
                        rows@.len() as int,
                        graph_nodes(old(self).g).len() as int,
                        old(self).edge_hint as int,
                    ),
                    j <= work@.len(),
                    triples_view(work@) == tris,
                    tris == normalized_triples(
                        surviving(&old(self).filter, rows_view(rows@)),
                        view_table(old(self).prefixes@),
                    ),
                    ck0 == cache_keys(view_table(old(self).colors@)),
                    cache_keys(view_table(self.colors@)) == keys_after(
                        ck0,
                        touched(tris.take(j as int)),
                    ),
                    nodes_distinct(cache_keys(view_table(self.colors@))),
                    forall|k: int|
                        0 <= k < self.colors@.len() ==> is_possible_color(
                            (#[trigger] view_table(self.colors@)[k]).1,
                            view_table(self.rules@),
                        ),
                decreases work@.len() - j,
            {
                let ghost keys_j = cache_keys(view_table(self.colors@));
                let ghost t_j = tris[j as int];
                proof {
                    assert(t_j == (work@[j as int].from@, work@[j as int].to@, work@[
                        j as int].pred@));
                }
                if !cache_lookup(&self.colors, &work[j].from) {
                    let c = match self.to_color(&work[j].from_raw) {
                        Ok(c) => c,
                        Err(_) => {
                            return Err(GraphError::Ancestry);
                        },
                    };
                    let key = copy_chars(&work[j].from);
                    let ghost cols0 = self.colors@;
                    self.colors.push((key, c));
                    proof {
                        assert(view_table(self.colors@) =~= view_table(cols0).push(
                            (t_j.0, c@),
                        ));
                        assert(cache_keys(view_table(self.colors@)) =~= cache_keys(
                            view_table(cols0),
                        ).push(t_j.0));
                        lemma_push_distinct(cache_keys(view_table(cols0)), t_j.0);
                    }
                }
                proof {
                    assert(cache_keys(view_table(self.colors@)) == step_key(keys_j, t_j.0));
                }
                let ghost keys_f = cache_keys(view_table(self.colors@));
                if !cache_lookup(&self.colors, &work[j].to) {
                    let c = match self.to_color(&work[j].to_raw) {
                        Ok(c) => c,
                        Err(_) => {
                            return Err(GraphError::Ancestry);
                        },
                    };
                    let key = copy_chars(&work[j].to);
                    let ghost cols0 = self.colors@;
                    self.colors.push((key, c));
                    proof {
                        assert(view_table(self.colors@) =~= view_table(cols0).push(
                            (t_j.1, c@),
                        ));
                        assert(cache_keys(view_table(self.colors@)) =~= cache_keys(
                            view_table(cols0),
                        ).push(t_j.1));
                        lemma_push_distinct(cache_keys(view_table(cols0)), t_j.1);
                    }
                }
                proof {
                    assert(cache_keys(view_table(self.colors@)) == step_key(keys_f, t_j.1));
                    let tl = touched(tris.take(j as int));
                    assert(touched(tris.take(j + 1)) == tl + seq![t_j.0, t_j.1]) by {
                        assert(tris.take(j + 1).drop_last() =~= tris.take(j as int));
                        assert(tris.take(j + 1).last() == t_j);
                    }
                    lemma_keys_after_two(ck0, tl, t_j.0, t_j.1);
                }
                j += 1;
            }
            proof {
                assert(tris.take(tris.len() as int) =~= tris);
            }
        }

        // Pass 3: deferred graph mutation, one row at a time.
        let ghost gn0 = graph_nodes(self.g);
        let ghost ge0 = graph_edges(self.g);
        let ghost hint0 = self.edge_hint;
        let ghost colors_b = self.colors@;
        proof {
            assert(tris.take(0) =~= Seq::<(Seq<char>, Seq<char>, Seq<char>)>::empty());
            assert(build_graph(gn0, ge0, tris.take(0)) == (gn0, ge0));
        }
        let mut j: usize = 0;
        while j < work.len()
            invariant
                self.filter == old(self).filter,
                self.rules == old(self).rules,
                self.coloring == old(self).coloring,
                self.prefixes == old(self).prefixes,
                self.colors@ == colors_b,
                gn0 == graph_nodes(old(self).g),
                ge0 == graph_edges(old(self).g),
                hint0 == old(self).edge_hint,
                !over_capacity(
                    rows@.len() as int,
                    graph_nodes(old(self).g).len() as int,
                    old(self).edge_hint as int,
                ),
                tris == normalized_triples(
                    surviving(&old(self).filter, rows_view(rows@)),
                    view_table(old(self).prefixes@),
                ),
                old(self).coloring ==> cache_keys(view_table(colors_b)) == keys_after(
                    cache_keys(view_table(old(self).colors@)),
                    touched(tris),
                ),
                !old(self).coloring ==> colors_b == old(self).colors@,
                nodes_distinct(cache_keys(view_table(self.colors@))),
                forall|k: int|
                    0 <= k < self.colors@.len() ==> is_possible_color(
                        (#[trigger] view_table(self.colors@)[k]).1,
                        view_table(self.rules@),
                    ),
                j <= work@.len(),
                triples_view(work@) == tris,
                tris.len() == work@.len(),
                work@.len() <= MAX_INPUT as nat,
                gn0.len() <= MAX_INPUT as nat,
                ge0.len() <= hint0 as nat,
                hint0 <= MAX_INPUT,
                (graph_nodes(self.g), graph_edges(self.g)) == build_graph(
                    gn0,
                    ge0,
                    tris.take(j as int),
                ),
                graph_nodes(self.g) == labels_view(self.nodes_map@),
                nodes_distinct(graph_nodes(self.g)),
                edges_wf(graph_edges(self.g), graph_nodes(self.g).len() as int),
                graph_nodes(self.g).len() <= gn0.len() + 2 * j,
                graph_edges(self.g).len() <= ge0.len() + j,
                self.edge_hint == hint0 + j,
            decreases work@.len() - j,
        {
            let ghost t_j = tris[j as int];
            let ghost cur_n = graph_nodes(self.g);
            let ghost cur_e = graph_edges(self.g);
            proof {
                assert(t_j == (work@[j as int].from@, work@[j as int].to@, work@[
                    j as int].pred@));
            }
            let a = ensure_node(&mut self.g, &mut self.nodes_map, &work[j].from);
            let ghost ns1 = graph_nodes(self.g);
            let b = ensure_node(&mut self.g, &mut self.nodes_map, &work[j].to);
            let ghost ns2 = graph_nodes(self.g);
            proof {
                assert(ns2 == insert_node(insert_node(cur_n, t_j.0), t_j.1));
                if !ns1.contains(t_j.1) {
                    lemma_node_index_push(ns1, t_j.1, t_j.0);
                    lemma_node_index_of(ns1, t_j.0);
                }
                assert(a as int == node_index_of(ns2, t_j.0));
                assert(b as int == node_index_of(ns2, t_j.1));
                lemma_node_index_of(ns2, t_j.0);
                lemma_node_index_of(ns2, t_j.1);
            }
            let w = string_of(&work[j].pred);
            pg_update_edge(&mut self.g, a, b, w);
            self.edge_hint = self.edge_hint + 1;
            proof {
                assert(graph_edges(self.g) == upsert_edge(cur_e, a as int, b as int, t_j.2));
                crate::graph::lemma_upsert_edge(cur_e, ns2.len() as int, a as int, b as int, t_j.2);
                assert((graph_nodes(self.g), graph_edges(self.g)) == insert_row(
                    cur_n,
                    cur_e,
                    t_j,
                ));
                assert(tris.take(j + 1).drop_last() =~= tris.take(j as int));
                assert(tris.take(j + 1).last() == t_j);
                assert(build_graph(gn0, ge0, tris.take(j + 1)) == insert_row(
                    cur_n,
                    cur_e,
                    t_j,
                ));
            }
            j += 1;
        }
        proof {
            assert(tris.take(tris.len() as int) =~= tris);
        }

        // Pass 4: render both artifacts from the finished graph.
        let d2 = render_d2(&self.g, &self.nodes_map, &self.colors);
        let dot = pg_dot(&self.g);
        Ok((d2, dot))
    }

    /// The d2 text of the graph built so far: every edge line, then every
    /// cached color's fill line.
    pub fn graph_to_d2lang(&self) -> (r: String)
        requires
            self.wf(),
        ensures
            r@ == d2_spec(graph_nodes(self.g), graph_edges(self.g), view_table(self.colors@)),
    {
        render_d2(&self.g, &self.nodes_map, &self.colors)
    }

    /// The dot text of the graph built so far.
    pub fn graph_to_dot(&self) -> (r: String)
        ensures
            r@ == dot_of(graph_nodes(self.g), graph_edges(self.g)),
    {
        pg_dot(&self.g)
    }
}

/// One cache-key step: the label is appended unless already present.
pub open spec fn step_key(keys: Seq<Seq<char>>, l: Seq<char>) -> Seq<Seq<char>> {
    if keys.contains(l) {
        keys
    } else {
        keys.push(l)
    }
}

/// Appending a fresh label keeps keys distinct.
proof fn lemma_push_distinct(keys: Seq<Seq<char>>, l: Seq<char>)
    requires
        nodes_distinct(keys),
        !keys.contains(l),
    ensures
        nodes_distinct(keys.push(l)),
{
    assert forall|i: int, j: int|
        0 <= i < j < keys.push(l).len() implies keys.push(l)[i] != keys.push(l)[j] by {
        if j < keys.len() {
        } else {
            if keys[i] == l {
                assert(keys.contains(l));
            }
        }
    }
}

/// Two key steps equal the fold over the two labels appended.
proof fn lemma_keys_after_two(ck0: Seq<Seq<char>>, tl: Seq<Seq<char>>, x: Seq<char>, y: Seq<char>)
    ensures
        keys_after(ck0, tl + seq![x, y]) == step_key(step_key(keys_after(ck0, tl), x), y),
{
    let l2 = tl + seq![x, y];
    let l1 = tl + seq![x];
    assert(l2.drop_last() =~= l1);
    assert(l2.last() == y);
    assert(l1.drop_last() =~= tl);
    assert(l1.last() == x);
    assert(l1.len() > 0);
    assert(keys_after(ck0, l1) == step_key(keys_after(ck0, tl), x));
    assert(l2.len() > 0);
    assert(keys_after(ck0, l2) == step_key(keys_after(ck0, l1), y));
}

/// Finds the node of label `l`, adding one when none exists: first seen
/// wins, so a label's node identity never changes.
fn ensure_node(
    g: &mut petgraph::graph::Graph<String, String>,
    nodes_map: &mut Vec<Vec<char>>,
    l: &Vec<char>,
) -> (idx: usize)
    requires
        labels_view(old(nodes_map)@) == graph_nodes(*old(g)),
        nodes_distinct(graph_nodes(*old(g))),
        edges_wf(graph_edges(*old(g)), graph_nodes(*old(g)).len() as int),
        graph_nodes(*old(g)).len() < 0xffff_fffd,
    ensures
        graph_nodes(*final(g)) == insert_node(graph_nodes(*old(g)), l@),
        graph_edges(*final(g)) == graph_edges(*old(g)),
        labels_view(final(nodes_map)@) == graph_nodes(*final(g)),
        nodes_distinct(graph_nodes(*final(g))),
        edges_wf(graph_edges(*final(g)), graph_nodes(*final(g)).len() as int),
        graph_nodes(*old(g)).len() <= graph_nodes(*final(g)).len() <= graph_nodes(
            *old(g),
        ).len() + 1,
        idx as int == node_index_of(graph_nodes(*final(g)), l@),
{
    let ghost lv = labels_view(nodes_map@);
    let mut i: usize = 0;
    while i < nodes_map.len()
        invariant
            lv == labels_view(nodes_map@),
            labels_view(nodes_map@) == graph_nodes(*g),
            *g == *old(g),
            *nodes_map == *old(nodes_map),
            nodes_distinct(graph_nodes(*g)),
            edges_wf(graph_edges(*g), graph_nodes(*g).len() as int),
            graph_nodes(*g).len() < 0xffff_fffd,
            i <= nodes_map@.len(),
            forall|k: int| 0 <= k < i ==> lv[k] != l@,
        decreases nodes_map@.len() - i,
    {
        proof {
            assert(lv[i as int] == nodes_map@[i as int]@);
        }
        if chars_eq(&nodes_map[i], l) {
            proof {
                assert(lv.contains(l@));
                assert(insert_node(lv, l@) == lv);
                lemma_node_index_of(lv, l@);
                let idx0 = node_index_of(lv, l@);
                assert(lv[idx0] == l@);
                if idx0 < i {
                    assert(false);
                }
                if idx0 > i as int {
                    assert(lv[i as int] != l@);
                    assert(false);
                }
            }
            return i;
        }
        i += 1;
    }
    proof {
        if lv.contains(l@) {
            let w = choose|w: int| 0 <= w < lv.len() && lv[w] == l@;
            assert(false);
        }
        assert(insert_node(lv, l@) == lv.push(l@));
    }
    let w = string_of(l);
    let idx = pg_add_node(g, w);
    let cp = copy_chars(l);
    let ghost nm0 = nodes_map@;
    nodes_map.push(cp);
    proof {
        assert(labels_view(nodes_map@) =~= labels_view(nm0).push(l@));
        lemma_node_index_push(lv, l@, l@);
        assert(idx as int == node_index_of(lv.push(l@), l@));
        lemma_push_distinct(lv, l@);
        assert(edges_wf(graph_edges(*g), graph_nodes(*g).len() as int));
    }
    idx
}

} // verus!
