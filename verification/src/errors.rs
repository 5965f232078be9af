//! Error types reported by a graph run.

use vstd::prelude::*;
use vstd::string::StringExecFns;

verus! {

/// One problem found while validating a graph against a requested output
/// name, before any node is scheduled.
#[derive(Debug)]
pub enum ConfigIssue {
    /// The requested output name resolves to no staged node and is not the
    /// reserved entrypoint name.
    MissingOutput { name: String },
    /// A node declares a dependency name that resolves to no staged node and
    /// is not the reserved entrypoint name. `node` is the declaring node.
    MissingDependency { node: String, dependency: String },
}

/// Mathematical image of a [`ConfigIssue`].
pub enum IssueView {
    MissingOutput { name: Seq<char> },
    MissingDependency { node: Seq<char>, dependency: Seq<char> },
}

impl View for ConfigIssue {
    type V = IssueView;

    open spec fn view(&self) -> IssueView {
        match self {
            ConfigIssue::MissingOutput { name } => IssueView::MissingOutput { name: name@ },
            ConfigIssue::MissingDependency { node, dependency } => IssueView::MissingDependency {
                node: node@,
                dependency: dependency@,
            },
        }
    }
}

/// Why a run could not produce a value.
#[derive(Debug)]
pub enum ExecutionError {
    /// The graph references names that cannot be resolved. `issues` lists
    /// every unresolvable name found, in staging order, the requested output
    /// first.
    Configuration { issues: Vec<ConfigIssue> },
    /// Every node that could fire has fired, and the requested output still
    /// has no value (its node was starved by a dependency cycle).
    OutputUnavailable { name: String },
}

impl ExecutionError {
    /// A plain-text rendering, for callers that want to print the error.
    pub fn describe(&self) -> (s: String)
        ensures
            self matches ExecutionError::Configuration { issues: _ } ==> s@
                == "configuration error: unresolvable names in the graph"@,
            self matches ExecutionError::OutputUnavailable { name: _ } ==> s@
                == "output unavailable: the requested node never produced a value"@,
    {
        match self {
            ExecutionError::Configuration { issues: _ } => String::from_str(
                "configuration error: unresolvable names in the graph",
            ),
            ExecutionError::OutputUnavailable { name: _ } => String::from_str(
                "output unavailable: the requested node never produced a value",
            ),
        }
    }
}

} // verus!
