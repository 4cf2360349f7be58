//! Division of command-line arguments: every argument between the program
//! name and the last names an ontology document, the last names the data
//! graph. Fewer than two file arguments is a usage error.

use vstd::prelude::*;

verus! {

/// A planned run: the ontology files, in argument order, and the data graph
/// file.
pub struct RunPlan {
    pub ontologies: Vec<String>,
    pub data_graph: String,
}

/// Divides the argument list, program name included, into a run plan; `None`
/// exactly when too few arguments were given, in which case the caller emits
/// the usage message and exits without touching any file.
pub fn plan_run(args: &Vec<String>) -> (r: Option<RunPlan>)
    ensures
        match r {
            Some(p) => {
                &&& args@.len() >= 3
                &&& p.ontologies@.len() == args@.len() - 2
                &&& forall|i: int|
                    0 <= i < p.ontologies@.len() ==> (#[trigger] p.ontologies@[i])@ == args@[i
                        + 1]@
                &&& p.data_graph@ == args@[args@.len() - 1]@
            },
            None => args@.len() < 3,
        },
{
    if args.len() < 3 {
        return None;
    }
    let mut ontologies: Vec<String> = Vec::new();
    let mut i: usize = 1;
    while i < args.len() - 1
        invariant
            3 <= args@.len(),
            1 <= i <= args@.len() - 1,
            ontologies@.len() == i - 1,
            forall|k: int| 0 <= k < ontologies@.len() ==> (#[trigger] ontologies@[k])@ == args@[k
                + 1]@,
        decreases args@.len() - i,
    {
        ontologies.push(args[i].clone());
        i += 1;
    }
    let data_graph = args[args.len() - 1].clone();
    Some(RunPlan { ontologies, data_graph })
}

} // verus!
