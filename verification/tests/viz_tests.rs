use rdf_class_viz::{
    relationship_query, AcceptAll, AncestryOracle, EdgeContains, FixedOracle, GraphError,
    TermRow, Visualizer, MAX_INPUT,
};

fn chars(s: &str) -> Vec<char> {
    s.chars().collect()
}

fn text(v: &Vec<char>) -> String {
    v.iter().collect()
}

fn row(from: &str, pred: &str, to: &str) -> TermRow {
    TermRow { from: from.to_owned(), pred: pred.to_owned(), to: to.to_owned() }
}

fn no_rules() -> Vec<(Vec<char>, Vec<char>)> {
    Vec::new()
}

#[test]
fn empty_rows_render_empty_d2() {
    let mut v = Visualizer::new(AcceptAll, FixedOracle { affirmed: vec![] }, no_rules(), false);
    let (d2, _dot) = v.create_graph(Vec::new()).unwrap();
    assert_eq!(d2, "");
}

#[test]
fn single_row_edge_line() {
    let mut v = Visualizer::new(AcceptAll, FixedOracle { affirmed: vec![] }, no_rules(), false);
    let rows = vec![row("<urn:ex#A>", "<urn:ex#feeds>", "<urn:ex#B>")];
    let (d2, dot) = v.create_graph(rows).unwrap();
    assert_eq!(d2, "urn:ex#A -> urn:ex#B: urn:ex#feeds\n");
    assert!(dot.contains("urn:ex#A"));
    assert!(dot.contains("urn:ex#B"));
}

#[test]
fn nodes_deduplicate_by_label() {
    // Four rows over three distinct labels: exactly three nodes remain.
    let mut v = Visualizer::new(AcceptAll, FixedOracle { affirmed: vec![] }, no_rules(), false);
    let rows = vec![
        row("<urn:ex#A>", "<urn:ex#p>", "<urn:ex#B>"),
        row("<urn:ex#A>", "<urn:ex#q>", "<urn:ex#C>"),
        row("<urn:ex#B>", "<urn:ex#r>", "<urn:ex#C>"),
        row("<urn:ex#A>", "<urn:ex#s>", "<urn:ex#B>"),
    ];
    v.create_graph(rows).unwrap();
    let labels: Vec<String> = v.nodes_map.iter().map(text).collect();
    assert_eq!(labels, vec!["urn:ex#A", "urn:ex#B", "urn:ex#C"]);
}

#[test]
fn identical_terms_make_one_node() {
    // Two spellings normalizing to the same label share one node.
    let mut v = Visualizer::new(AcceptAll, FixedOracle { affirmed: vec![] }, no_rules(), false);
    let rows = vec![
        row(
            "<https://brickschema.org/schema/Brick#AHU>",
            "<urn:ex#p>",
            "<https://brickschema.org/schema/Brick#AHU>",
        ),
    ];
    v.create_graph(rows).unwrap();
    assert_eq!(v.nodes_map.len(), 1);
    assert_eq!(text(&v.nodes_map[0]), "brick_AHU");
}

#[test]
fn last_write_wins_on_multi_edges() {
    let mut v = Visualizer::new(AcceptAll, FixedOracle { affirmed: vec![] }, no_rules(), false);
    let rows = vec![
        row("<urn:ex#A>", "<urn:ex#first>", "<urn:ex#B>"),
        row("<urn:ex#A>", "<urn:ex#second>", "<urn:ex#B>"),
    ];
    let (d2, _dot) = v.create_graph(rows).unwrap();
    assert_eq!(d2, "urn:ex#A -> urn:ex#B: urn:ex#second\n");
}

#[test]
fn filter_excludes_whole_rows() {
    // The rejected row contributes no node, no edge, and no color entry,
    // even though its terms also appear in the surviving row.
    let filter = EdgeContains { needle: chars("keep") };
    let mut v = Visualizer::new(filter, FixedOracle { affirmed: vec![] }, no_rules(), true);
    let rows = vec![
        row("<urn:ex#A>", "<urn:ex#keep>", "<urn:ex#B>"),
        row("<urn:ex#A>", "<urn:ex#drop>", "<urn:ex#C>"),
    ];
    let (d2, _dot) = v.create_graph(rows).unwrap();
    assert_eq!(
        d2,
        "urn:ex#A -> urn:ex#B: urn:ex#keep\n\
         urn:ex#A.style.fill: \"#ffffff\"\n\
         urn:ex#B.style.fill: \"#ffffff\"\n"
    );
    let labels: Vec<String> = v.nodes_map.iter().map(text).collect();
    assert_eq!(labels, vec!["urn:ex#A", "urn:ex#B"]);
    assert_eq!(v.colors.len(), 2);
}

struct CountingOracle {
    calls: usize,
}

impl AncestryOracle for CountingOracle {
    fn ask(&mut self, _query: &str) -> Result<bool, GraphError> {
        self.calls += 1;
        Ok(false)
    }
}

#[test]
fn color_resolved_once_per_label() {
    // Three rows over the same two labels, one rule: the ancestry resolution
    // runs once per distinct label, so exactly two queries are issued.
    let rules = vec![(chars("urn:ex#X"), chars("red"))];
    let mut v = Visualizer::new(AcceptAll, CountingOracle { calls: 0 }, rules, true);
    let rows = vec![
        row("<urn:ex#A>", "<urn:ex#p>", "<urn:ex#B>"),
        row("<urn:ex#A>", "<urn:ex#q>", "<urn:ex#B>"),
        row("<urn:ex#B>", "<urn:ex#r>", "<urn:ex#A>"),
    ];
    v.create_graph(rows).unwrap();
    assert_eq!(v.oracle.calls, 2);
    assert_eq!(v.colors.len(), 2);
}

#[test]
fn coloring_disabled_keeps_cache_empty() {
    let rules = vec![(chars("urn:ex#X"), chars("red"))];
    let mut v = Visualizer::new(AcceptAll, CountingOracle { calls: 0 }, rules, false);
    let rows = vec![row("<urn:ex#A>", "<urn:ex#p>", "<urn:ex#B>")];
    let (d2, _dot) = v.create_graph(rows).unwrap();
    assert_eq!(v.oracle.calls, 0);
    assert_eq!(v.colors.len(), 0);
    assert_eq!(d2, "urn:ex#A -> urn:ex#B: urn:ex#p\n");
}

fn ask_text(term: &str, class: &str) -> String {
    let mut q = String::new();
    q.push_str("PREFIX owl: <http://www.w3.org/2002/07/owl#> PREFIX rdfs: <http://www.w3.org/2000/01/rdf-schema#> ASK { ");
    q.push_str(term);
    q.push_str(" (rdfs:subClassOf|owl:equivalentClass)* <");
    q.push_str(class);
    q.push_str("> }");
    q
}

#[test]
fn subclass_scenario_colors_both_nodes_gold() {
    // The ontology declares Point a subclass of Equipment; the data graph
    // relates a Point instance to an Equipment instance by `feeds`. With one
    // rule mapping Equipment to Gold, both class nodes resolve to Gold —
    // Point through subclass ancestry.
    let equipment = "https://brickschema.org/schema/Brick#Equipment";
    let point = "<https://brickschema.org/schema/Brick#Point>";
    let equipment_ref = "<https://brickschema.org/schema/Brick#Equipment>";
    let rules = vec![(chars(equipment), chars("Gold"))];
    let oracle = FixedOracle {
        affirmed: vec![ask_text(point, equipment), ask_text(equipment_ref, equipment)],
    };
    let mut v = Visualizer::new(AcceptAll, oracle, rules, true);
    let rows = vec![row(point, "<urn:ex#feeds>", equipment_ref)];
    let (d2, _dot) = v.create_graph(rows).unwrap();
    assert_eq!(
        d2,
        "brick_Point -> brick_Equipment: urn:ex#feeds\n\
         brick_Point.style.fill: \"Gold\"\n\
         brick_Equipment.style.fill: \"Gold\"\n"
    );
}

#[test]
fn capacity_error_when_hint_exceeds_limit() {
    let mut v = Visualizer::new(AcceptAll, FixedOracle { affirmed: vec![] }, no_rules(), false);
    v.edge_hint = MAX_INPUT + 1;
    let r = v.create_graph(vec![row("<urn:ex#A>", "<urn:ex#p>", "<urn:ex#B>")]);
    assert_eq!(r, Err(GraphError::Capacity));
}

#[test]
fn ancestry_error_aborts_build() {
    struct Failing;
    impl AncestryOracle for Failing {
        fn ask(&mut self, _query: &str) -> Result<bool, GraphError> {
            Err(GraphError::Query)
        }
    }
    let rules = vec![(chars("urn:ex#X"), chars("red"))];
    let mut v = Visualizer::new(AcceptAll, Failing, rules, true);
    let r = v.create_graph(vec![row("<urn:ex#A>", "<urn:ex#p>", "<urn:ex#B>")]);
    assert_eq!(r, Err(GraphError::Ancestry));
    // The graph itself is untouched by the aborted build.
    assert_eq!(v.nodes_map.len(), 0);
}

#[test]
fn d2_text_matches_incremental_render() {
    let mut v = Visualizer::new(AcceptAll, FixedOracle { affirmed: vec![] }, no_rules(), false);
    let rows = vec![row("<urn:ex#A>", "<urn:ex#p>", "<urn:ex#B>")];
    let (d2, _dot) = v.create_graph(rows).unwrap();
    assert_eq!(v.graph_to_d2lang(), d2);
}

#[test]
fn dot_text_of_empty_graph_has_no_labels() {
    let v = Visualizer::new(AcceptAll, FixedOracle { affirmed: vec![] }, no_rules(), false);
    let dot = v.graph_to_dot();
    assert!(!dot.contains("urn:"));
}

#[test]
fn self_loop_keeps_one_node_and_one_edge() {
    let mut v = Visualizer::new(AcceptAll, FixedOracle { affirmed: vec![] }, no_rules(), false);
    let rows = vec![row("<urn:ex#A>", "<urn:ex#p>", "<urn:ex#A>")];
    let (d2, _dot) = v.create_graph(rows).unwrap();
    assert_eq!(v.nodes_map.len(), 1);
    assert_eq!(d2, "urn:ex#A -> urn:ex#A: urn:ex#p\n");
}

#[test]
fn second_build_accumulates_into_the_same_graph() {
    let mut v = Visualizer::new(AcceptAll, FixedOracle { affirmed: vec![] }, no_rules(), false);
    v.create_graph(vec![row("<urn:ex#A>", "<urn:ex#p>", "<urn:ex#B>")]).unwrap();
    let (d2, _dot) =
        v.create_graph(vec![row("<urn:ex#B>", "<urn:ex#q>", "<urn:ex#C>")]).unwrap();
    assert_eq!(
        d2,
        "urn:ex#A -> urn:ex#B: urn:ex#p\n\
         urn:ex#B -> urn:ex#C: urn:ex#q\n"
    );
    assert_eq!(v.nodes_map.len(), 3);
}

#[test]
fn relationship_query_text() {
    let q = relationship_query();
    assert!(q.contains("SELECT ?from ?p ?to"));
    assert!(q.contains("?x rdf:type ?from"));
    assert!(q.contains("?y rdf:type ?to"));
    assert!(q.contains("?from a owl:Class"));
}
