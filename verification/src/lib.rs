//! Extraction of a colored class-relationship graph from an RDF/OWL
//! knowledge graph: term normalization into display labels, ancestry-based
//! color resolution, deduplicating graph construction with last-write-wins
//! edge semantics, and textual diagram rendering.

use vstd::prelude::*;

mod args;
mod color;
mod errors;
mod filter;
mod graph;
mod normalize;
mod oracle;
mod pgraph;
mod render;
mod strings;
mod viz;

pub use args::{plan_run, RunPlan};
pub use color::first_match_color;
pub use errors::GraphError;
pub use filter::{AcceptAll, EdgeContains, EdgeFilter};
pub use normalize::{default_prefixes, rewrite_term};
pub use oracle::{relationship_query, AncestryOracle, FixedOracle, TermRow};
pub use viz::{Visualizer, MAX_INPUT};

verus! {

} // verus!
