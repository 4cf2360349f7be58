//! The store interface the builder consumes. Relationship rows arrive as
//! plain text rows, and ancestry questions are answered by an oracle the
//! caller supplies; the RDF store itself — loading, pattern matching, ASK
//! evaluation — is an external collaborator behind this interface.

use vstd::prelude::*;

use crate::errors::GraphError;

verus! {

/// One row of the relationship query: the rendered texts of the bound
/// from-class, to-class and predicate terms.
pub struct TermRow {
    pub from: String,
    pub to: String,
    pub pred: String,
}

/// The mathematical contents of a row sequence: (from, to, predicate) term
/// texts.
pub open spec fn rows_view(rows: Seq<TermRow>) -> Seq<(Seq<char>, Seq<char>, Seq<char>)> {
    rows.map(|i: int, r: TermRow| (r.from@, r.to@, r.pred@))
}

/// Answers ancestry questions. An implementation typically evaluates the
/// ASK text against an RDF store. Nothing is assumed of the answers, so
/// whatever is proved of the builder holds for every oracle behavior.
pub trait AncestryOracle {
    /// Answers the ASK query text, or reports a query failure.
    fn ask(&mut self, query: &str) -> Result<bool, GraphError>;
}

/// An oracle answering from a fixed list: a query is affirmed exactly when
/// its text is listed. For callers that know the ancestry relation up front.
pub struct FixedOracle {
    pub affirmed: Vec<String>,
}

impl AncestryOracle for FixedOracle {
    fn ask(&mut self, query: &str) -> Result<bool, GraphError> {
        let q = query.to_owned();
        let mut i: usize = 0;
        while i < self.affirmed.len()
            invariant
                i <= self.affirmed@.len(),
            decreases self.affirmed@.len() - i,
        {
            if self.affirmed[i] == q {
                return Ok(true);
            }
            i += 1;
        }
        Ok(false)
    }
}

/// The fixed pattern query that yields the relationship rows: pairs of
/// instances of two declared classes, related by any predicate.
pub open spec fn relationship_query_spec() -> Seq<char> {
    "PREFIX rdf: <http://www.w3.org/1999/02/22-rdf-syntax-ns#> PREFIX owl: <http://www.w3.org/2002/07/owl#> SELECT ?from ?p ?to WHERE { ?x rdf:type ?from . ?x ?p ?y . ?y rdf:type ?to . ?from a owl:Class . ?to a owl:Class . }"@
}

/// The text of the relationship query, for the caller to put to the store.
pub fn relationship_query() -> (q: &'static str)
    ensures
        q@ == relationship_query_spec(),
{
    "PREFIX rdf: <http://www.w3.org/1999/02/22-rdf-syntax-ns#> PREFIX owl: <http://www.w3.org/2002/07/owl#> SELECT ?from ?p ?to WHERE { ?x rdf:type ?from . ?x ?p ?y . ?y rdf:type ?to . ?from a owl:Class . ?to a owl:Class . }"
}

} // verus!
