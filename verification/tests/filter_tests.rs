use rdf_class_viz::{AcceptAll, EdgeContains, EdgeFilter};

fn chars(s: &str) -> Vec<char> {
    s.chars().collect()
}

#[test]
fn accept_all_keeps_everything() {
    let f = AcceptAll;
    assert!(f.decide("a", "b", "c"));
    assert!(f.decide("", "", ""));
}

#[test]
fn edge_contains_checks_the_predicate_only() {
    let f = EdgeContains { needle: chars("Point") };
    assert!(f.decide("x", "y", "hasPoint"));
    assert!(f.decide("x", "y", "Pointer"));
    assert!(!f.decide("Point", "Point", "feeds"));
}

#[test]
fn edge_contains_empty_needle_keeps_everything() {
    let f = EdgeContains { needle: chars("") };
    assert!(f.decide("x", "y", ""));
    assert!(f.decide("x", "y", "anything"));
}

#[test]
fn edge_contains_needle_longer_than_edge() {
    let f = EdgeContains { needle: chars("longneedle") };
    assert!(!f.decide("x", "y", "short"));
}
