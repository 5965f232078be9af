//! The engine's guarantees, stated and proved as laws over the run model.
//!
//! Validation laws — that every unresolvable dependency or output name is
//! reported, attributed to its node — stand next to the report they speak
//! of, in [`crate::graph`].

use vstd::prelude::*;
use crate::graph::{
    all_deps_resolve, distinct_names, entrypoint_name, has_node, node_index, resolves, NodeView,
};
use crate::run::{assembled_inputs, dep_value, node_ready, run_complete};

verus! {

/// `rank` witnesses that the dependency graph is acyclic: along every
/// declared dependency edge that is not the reserved entrypoint name, the
/// rank strictly drops.
pub open spec fn rank_decreasing(g: Seq<NodeView>, rank: spec_fn(int) -> nat) -> bool {
    forall|i: int, j: int|
        0 <= i < g.len() && 0 <= j < g[i].inputs.len() && #[trigger] g[i].inputs[j]
            != entrypoint_name() && has_node(g, g[i].inputs[j]) ==> rank(
            node_index(g, g[i].inputs[j]),
        ) < rank(i)
}

/// In a finished run of an acyclic graph whose dependencies all resolve,
/// every node of rank below `bound` has settled.
proof fn lemma_ranked_nodes_settle<Op: Fn(Vec<String>) -> String>(
    g: Seq<NodeView>,
    ops: Seq<Op>,
    entry: Seq<char>,
    vals: Seq<Option<Seq<char>>>,
    rank: spec_fn(int) -> nat,
    bound: nat,
)
    requires
        distinct_names(g),
        all_deps_resolve(g),
        rank_decreasing(g, rank),
        run_complete(g, ops, entry, vals),
    ensures
        forall|i: int| 0 <= i < g.len() && rank(i) < bound ==> vals[i] is Some,
    decreases bound,
{
    if bound > 0 {
        lemma_ranked_nodes_settle(g, ops, entry, vals, rank, (bound - 1) as nat);
        assert forall|i: int| 0 <= i < g.len() && rank(i) < bound implies vals[i] is Some by {
            if rank(i) >= bound - 1 {
                assert forall|j: int| 0 <= j < g[i].inputs.len() implies dep_value(
                    g,
                    entry,
                    vals,
                    #[trigger] g[i].inputs[j],
                ) is Some by {
                    let dep = g[i].inputs[j];
                    if dep != entrypoint_name() {
                        assert(resolves(g, dep));
                        assert(has_node(g, dep));
                        let k = node_index(g, dep);
                        assert(0 <= k < g.len() && g[k].name == dep);
                        assert(rank(k) < rank(i));
                        assert(vals[k] is Some);
                    }
                }
                assert(node_ready(g, entry, vals, i));
            }
        }
    }
}

/// No silent starvation on a well-formed graph: when every dependency
/// resolves and some rank function witnesses acyclicity, a finished run
/// has settled every node, so every resolvable output name denotes a
/// value. A run can then only return the computed output, never report it
/// unavailable; only a dependency cycle can starve an output.
pub proof fn lemma_acyclic_output_settles<Op: Fn(Vec<String>) -> String>(
    g: Seq<NodeView>,
    ops: Seq<Op>,
    entry: Seq<char>,
    vals: Seq<Option<Seq<char>>>,
    rank: spec_fn(int) -> nat,
    out: Seq<char>,
)
    requires
        distinct_names(g),
        all_deps_resolve(g),
        rank_decreasing(g, rank),
        run_complete(g, ops, entry, vals),
        resolves(g, out),
    ensures
        dep_value(g, entry, vals, out) is Some,
{
    if out != entrypoint_name() {
        let k = node_index(g, out);
        assert(0 <= k < g.len() && g[k].name == out);
        lemma_ranked_nodes_settle(g, ops, entry, vals, rank, rank(k) + 1);
    }
}

/// Declared-order law: a node's operation receives exactly one value per
/// declared dependency, and the value of dependency `j` stands at position
/// `j` — with dependencies `[x, y]` it is invoked on the value of `x` then
/// the value of `y`, never the reverse, whatever order the producers
/// settled in.
pub proof fn lemma_declared_order(
    g: Seq<NodeView>,
    entry: Seq<char>,
    vals: Seq<Option<Seq<char>>>,
    i: int,
    j: int,
)
    requires
        0 <= i < g.len(),
        0 <= j < g[i].inputs.len(),
    ensures
        assembled_inputs(g, entry, vals, i).len() == g[i].inputs.len(),
        assembled_inputs(g, entry, vals, i)[j] == dep_value(g, entry, vals, g[i].inputs[j])->0,
{
}

/// Repeatability law: what a node is handed is a function of the graph and
/// of what its dependencies settled to. Two runs in which every dependency
/// of node `i` denotes the same value assemble identical input vectors for
/// it — the ordering never varies from run to run.
pub proof fn lemma_assembly_deterministic(
    g: Seq<NodeView>,
    entry1: Seq<char>,
    vals1: Seq<Option<Seq<char>>>,
    entry2: Seq<char>,
    vals2: Seq<Option<Seq<char>>>,
    i: int,
)
    requires
        0 <= i < g.len(),
        forall|j: int|
            0 <= j < g[i].inputs.len() ==> dep_value(g, entry1, vals1, #[trigger] g[i].inputs[j])
                == dep_value(g, entry2, vals2, g[i].inputs[j]),
    ensures
        assembled_inputs(g, entry1, vals1, i) == assembled_inputs(g, entry2, vals2, i),
{
    assert(assembled_inputs(g, entry1, vals1, i) =~= assembled_inputs(g, entry2, vals2, i));
}

/// Fan-out law: two nodes declaring the same dependency name receive the
/// identical value, and each declaration receives it exactly once — one
/// input slot per declared dependency.
pub proof fn lemma_fan_out(
    g: Seq<NodeView>,
    entry: Seq<char>,
    vals: Seq<Option<Seq<char>>>,
    i: int,
    j: int,
    k: int,
    l: int,
)
    requires
        0 <= i < g.len(),
        0 <= j < g[i].inputs.len(),
        0 <= k < g.len(),
        0 <= l < g[k].inputs.len(),
        g[i].inputs[j] == g[k].inputs[l],
    ensures
        assembled_inputs(g, entry, vals, i)[j] == assembled_inputs(g, entry, vals, k)[l],
        assembled_inputs(g, entry, vals, i).len() == g[i].inputs.len(),
{
}

/// Run-isolation law: a dependency declared on the reserved entrypoint
/// name always denotes the current run's entrypoint value — never a value
/// from an earlier run, and never the value of a staged node, even one
/// named like the reserved name.
pub proof fn lemma_entrypoint_isolation(
    g: Seq<NodeView>,
    entry: Seq<char>,
    vals: Seq<Option<Seq<char>>>,
    i: int,
    j: int,
)
    requires
        0 <= i < g.len(),
        0 <= j < g[i].inputs.len(),
        g[i].inputs[j] == entrypoint_name(),
    ensures
        dep_value(g, entry, vals, g[i].inputs[j]) == Some(entry),
        assembled_inputs(g, entry, vals, i)[j] == entry,
{
}

} // verus!
