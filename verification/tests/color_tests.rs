use rdf_class_viz::{first_match_color, AcceptAll, AncestryOracle, FixedOracle, GraphError, Visualizer};

fn chars(s: &str) -> Vec<char> {
    s.chars().collect()
}

fn rules_red_blue() -> Vec<(Vec<char>, Vec<char>)> {
    vec![
        (chars("urn:ex#A"), chars("red")),
        (chars("urn:ex#B"), chars("blue")),
    ]
}

fn ask_text(term: &str, class: &str) -> String {
    let mut q = String::new();
    q.push_str("PREFIX owl: <http://www.w3.org/2002/07/owl#> PREFIX rdfs: <http://www.w3.org/2000/01/rdf-schema#> ASK { ");
    q.push_str(term);
    q.push_str(" (rdfs:subClassOf|owl:equivalentClass)* <");
    q.push_str(class);
    q.push_str("> }");
    q
}

#[test]
fn first_rule_wins_when_both_match() {
    let answers = vec![true, true];
    let c = first_match_color(&answers, &rules_red_blue());
    assert_eq!(c.iter().collect::<String>(), "red");
}

#[test]
fn later_rule_used_when_first_misses() {
    let answers = vec![false, true];
    let c = first_match_color(&answers, &rules_red_blue());
    assert_eq!(c.iter().collect::<String>(), "blue");
}

#[test]
fn default_color_when_no_rule_matches() {
    let answers = vec![false, false];
    let c = first_match_color(&answers, &rules_red_blue());
    assert_eq!(c.iter().collect::<String>(), "#ffffff");
}

#[test]
fn to_color_prefers_earlier_rule() {
    // The oracle affirms ancestry for both rules; the first one still wins.
    let oracle = FixedOracle {
        affirmed: vec![
            ask_text("<urn:ex#C>", "urn:ex#A"),
            ask_text("<urn:ex#C>", "urn:ex#B"),
        ],
    };
    let mut v = Visualizer::new(AcceptAll, oracle, rules_red_blue(), true);
    let c = v.to_color(&chars("<urn:ex#C>")).unwrap();
    assert_eq!(c.iter().collect::<String>(), "red");
}

#[test]
fn to_color_default_when_oracle_denies_all() {
    let oracle = FixedOracle { affirmed: vec![] };
    let mut v = Visualizer::new(AcceptAll, oracle, rules_red_blue(), true);
    let c = v.to_color(&chars("<urn:ex#C>")).unwrap();
    assert_eq!(c.iter().collect::<String>(), "#ffffff");
}

struct FailingOracle;

impl AncestryOracle for FailingOracle {
    fn ask(&mut self, _query: &str) -> Result<bool, GraphError> {
        Err(GraphError::Query)
    }
}

#[test]
fn ancestry_failure_surfaces() {
    let mut v = Visualizer::new(AcceptAll, FailingOracle, rules_red_blue(), true);
    let r = v.to_color(&chars("<urn:ex#C>"));
    assert_eq!(r, Err(GraphError::Ancestry));
}
