//! A minimal dataflow execution engine.
//!
//! A [`graph::Graph`] is a directed graph of named computation nodes. Each
//! node declares an ordered list of dependency names and an operation that
//! turns the dependencies' values, assembled in declared order, into one
//! string value. The reserved name `"entrypoint"` stands for the value the
//! caller hands to a run. Staging builds the graph; a run resolves every
//! dependency, fires each node once all its inputs are available, and returns
//! the value of the requested output node.

pub mod errors;
pub mod graph;
pub mod laws;
pub mod run;
