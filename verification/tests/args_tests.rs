use rdf_class_viz::plan_run;

#[test]
fn single_argument_is_a_usage_error() {
    // Program name plus one file argument is too few: no plan, no file I/O.
    let args = vec!["viz".to_owned(), "graph.ttl".to_owned()];
    assert!(plan_run(&args).is_none());
}

#[test]
fn no_arguments_is_a_usage_error() {
    let args = vec!["viz".to_owned()];
    assert!(plan_run(&args).is_none());
}

#[test]
fn last_argument_is_the_data_graph() {
    let args = vec![
        "viz".to_owned(),
        "ontology1.ttl".to_owned(),
        "ontology2.ttl".to_owned(),
        "graph.ttl".to_owned(),
    ];
    let plan = plan_run(&args).unwrap();
    assert_eq!(plan.ontologies, vec!["ontology1.ttl", "ontology2.ttl"]);
    assert_eq!(plan.data_graph, "graph.ttl");
}

#[test]
fn two_arguments_make_a_minimal_plan() {
    let args = vec!["viz".to_owned(), "ont.ttl".to_owned(), "graph.ttl".to_owned()];
    let plan = plan_run(&args).unwrap();
    assert_eq!(plan.ontologies, vec!["ont.ttl"]);
    assert_eq!(plan.data_graph, "graph.ttl");
}
