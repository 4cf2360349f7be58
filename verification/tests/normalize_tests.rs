use rdf_class_viz::{default_prefixes, rewrite_term};

#[test]
fn rewrite_is_deterministic() {
    let table = default_prefixes();
    let text = "<https://brickschema.org/schema/Brick#AHU>";
    let first = rewrite_term(text, &table);
    let second = rewrite_term(text, &table);
    assert_eq!(first, second);
}

#[test]
fn rewrite_brick_iri() {
    let table = default_prefixes();
    let label = rewrite_term("<https://brickschema.org/schema/Brick#Point>", &table);
    assert_eq!(label, "brick_Point");
}

#[test]
fn rewrite_rdf_iri() {
    let table = default_prefixes();
    let label = rewrite_term("<http://www.w3.org/1999/02/22-rdf-syntax-ns#type>", &table);
    assert_eq!(label, "rdf_type");
}

#[test]
fn rewrite_owl_iri() {
    let table = default_prefixes();
    let label = rewrite_term("<http://www.w3.org/2002/07/owl#Class>", &table);
    assert_eq!(label, "owl_Class");
}

#[test]
fn rewrite_trims_literal_quotes() {
    let table = default_prefixes();
    let label = rewrite_term("\"sensor one\"", &table);
    assert_eq!(label, "sensor one");
}

#[test]
fn rewrite_unmatched_namespace_passes_through() {
    let table = default_prefixes();
    let label = rewrite_term("<http://example.com/thing>", &table);
    assert_eq!(label, "http://example.com/thing");
}

#[test]
fn rewrite_empty_text() {
    let table = default_prefixes();
    let label = rewrite_term("", &table);
    assert_eq!(label, "");
}

#[test]
fn rewrite_substitutes_substring_occurrences() {
    // Substitution is substring-based, not IRI-aware: a namespace inside a
    // longer text is rewritten too.
    let table = default_prefixes();
    let label = rewrite_term(
        "xhttps://brickschema.org/schema/Brick#Y",
        &table,
    );
    assert_eq!(label, "xbrick_Y");
}

#[test]
fn rewrite_replaces_every_occurrence() {
    let table = default_prefixes();
    let label = rewrite_term(
        "<https://brickschema.org/schema/Brick#A-https://brickschema.org/schema/Brick#B>",
        &table,
    );
    assert_eq!(label, "brick_A-brick_B");
}
