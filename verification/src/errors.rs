//! The failures a build can surface. Every failure aborts the whole build;
//! none is retried or downgraded.

use vstd::prelude::*;

verus! {

/// The error of a build step. Each variant names the step that failed.
#[derive(Clone, Copy, PartialEq, Eq, Structural, Debug)]
pub enum GraphError {
    /// A query against the store failed.
    Query,
    /// An ancestry query failed while resolving a color.
    Ancestry,
    /// The input rows would overflow the graph's index capacity.
    Capacity,
}

} // verus!
