//! One execution of a staged graph: the mathematical model of a run, a
//! step-wise driver usable from unverified schedulers, and the run-to-
//! completion driver for synchronous operations.
//!
//! A run keeps one single-slot value per node, settled at most once and
//! read any number of times. A node fires once every declared dependency
//! has a value; its inputs are assembled strictly in declared order.

use vstd::prelude::*;
use vstd::pervasive::VecAdditionalExecFns;
use crate::errors::{ConfigIssue, ExecutionError};
use crate::graph::{
    config_issues, entrypoint_name, has_node, lemma_node_index_unique, name_is_entrypoint,
    node_index, runnable, Graph, NodeView,
};
use crate::laws::{lemma_acyclic_output_settles, rank_decreasing};

verus! {

/// The value a dependency name denotes during a run: the caller's value for
/// the reserved entrypoint name, otherwise the (possibly still missing)
/// value of the staged node of that name. The entrypoint name takes
/// priority: it never resolves to a staged node, even one named
/// `"entrypoint"`.
pub open spec fn dep_value(
    g: Seq<NodeView>,
    entry: Seq<char>,
    vals: Seq<Option<Seq<char>>>,
    dep: Seq<char>,
) -> Option<Seq<char>> {
    if dep == entrypoint_name() {
        Some(entry)
    } else if has_node(g, dep) {
        vals[node_index(g, dep)]
    } else {
        None
    }
}

/// Node `i` may fire: every declared dependency has a value.
pub open spec fn node_ready(
    g: Seq<NodeView>,
    entry: Seq<char>,
    vals: Seq<Option<Seq<char>>>,
    i: int,
) -> bool {
    forall|j: int|
        0 <= j < g[i].inputs.len() ==> dep_value(g, entry, vals, #[trigger] g[i].inputs[j])
            is Some
}

/// The input vector assembled for node `i`: the value of each declared
/// dependency, in declared order.
pub open spec fn assembled_inputs(
    g: Seq<NodeView>,
    entry: Seq<char>,
    vals: Seq<Option<Seq<char>>>,
    i: int,
) -> Seq<Seq<char>> {
    Seq::new(g[i].inputs.len(), |j: int| dep_value(g, entry, vals, g[i].inputs[j])->0)
}

/// Node `i`'s slot, if settled, holds a value its operation can return for
/// the inputs assembled in declared order.
pub open spec fn node_computed<Op: Fn(Vec<String>) -> String>(
    g: Seq<NodeView>,
    ops: Seq<Op>,
    entry: Seq<char>,
    vals: Seq<Option<Seq<char>>>,
    i: int,
) -> bool {
    vals[i] is Some ==> {
        &&& node_ready(g, entry, vals, i)
        &&& exists|args: Vec<String>, out: String|
            args.deep_view() == assembled_inputs(g, entry, vals, i) && out@ == vals[i]->0
                && call_ensures(ops[i], (args,), out)
    }
}

/// Every settled slot was computed by its node's operation from inputs
/// assembled in declared order.
pub open spec fn valid_assignment<Op: Fn(Vec<String>) -> String>(
    g: Seq<NodeView>,
    ops: Seq<Op>,
    entry: Seq<char>,
    vals: Seq<Option<Seq<char>>>,
) -> bool {
    &&& vals.len() == g.len()
    &&& forall|i: int| 0 <= i < g.len() ==> node_computed(g, ops, entry, vals, i)
}

/// No unsettled node can fire any more.
pub open spec fn no_node_ready(
    g: Seq<NodeView>,
    entry: Seq<char>,
    vals: Seq<Option<Seq<char>>>,
) -> bool {
    forall|i: int|
        0 <= i < g.len() && vals[i] is None ==> !node_ready(g, entry, vals, i)
}

/// A finished run: a valid assignment that cannot make progress. Under a
/// validated acyclic graph every slot is settled; an unsettled slot means
/// its node waits on a dependency cycle.
pub open spec fn run_complete<Op: Fn(Vec<String>) -> String>(
    g: Seq<NodeView>,
    ops: Seq<Op>,
    entry: Seq<char>,
    vals: Seq<Option<Seq<char>>>,
) -> bool {
    valid_assignment(g, ops, entry, vals) && no_node_ready(g, entry, vals)
}

/// How many slots are still unsettled; the measure a run works down.
pub open spec fn count_none(vals: Seq<Option<Seq<char>>>) -> nat
    decreases vals.len(),
{
    if vals.len() == 0 {
        0
    } else {
        count_none(vals.drop_last()) + (if vals.last() is None {
            1nat
        } else {
            0nat
        })
    }
}

/// Settling an unsettled slot strictly shrinks the measure.
pub proof fn lemma_count_none_update(vals: Seq<Option<Seq<char>>>, i: int, v: Seq<char>)
    requires
        0 <= i < vals.len(),
        vals[i] is None,
    ensures
        count_none(vals.update(i, Some(v))) < count_none(vals),
    decreases vals.len(),
{
    let upd = vals.update(i, Some(v));
    if i == vals.len() - 1 {
        assert(upd.drop_last() =~= vals.drop_last());
    } else {
        assert(upd.drop_last() =~= vals.drop_last().update(i, Some(v)));
        lemma_count_none_update(vals.drop_last(), i, v);
    }
}

/// Settling one slot never changes the value a dependency name already
/// denotes, and can only settle, never unsettle, a name.
pub proof fn lemma_dep_value_after_update(
    g: Seq<NodeView>,
    entry: Seq<char>,
    vals: Seq<Option<Seq<char>>>,
    i: int,
    v: Seq<char>,
    dep: Seq<char>,
)
    requires
        vals.len() == g.len(),
        0 <= i < vals.len(),
        vals[i] is None,
    ensures
        dep_value(g, entry, vals, dep) is Some ==> dep_value(g, entry, vals.update(i, Some(v)), dep)
            == dep_value(g, entry, vals, dep),
{
    if dep != entrypoint_name() && has_node(g, dep) {
        let k = node_index(g, dep);
        assert(0 <= k < g.len());
    }
}

/// The run state for one execution: the caller's entrypoint value and one
/// single-slot value per staged node, settled at most once. Fresh state is
/// made by [`Graph::start_run`] for every run, so no earlier run's values
/// or entrypoint wiring can reach a later one.
pub struct RunState {
    pub entry: String,
    pub vals: Vec<Option<String>>,
}

impl RunState {
    /// The state tracks one slot per node of `g`.
    pub open spec fn matches_graph(self, g: Seq<NodeView>) -> bool {
        self.vals.deep_view().len() == g.len()
    }

    /// Whether node `i`'s slot is settled.
    pub fn has_value(&self, i: usize) -> (b: bool)
        requires
            i < self.vals@.len(),
        ensures
            b == (self.vals.deep_view()[i as int] is Some),
    {
        self.vals[i].is_some()
    }

    /// The value a dependency name currently denotes, cloned out:
    /// the entrypoint value for the reserved name, the named node's settled
    /// value otherwise, and `None` for an unsettled or unresolvable name.
    pub fn lookup<Op>(&self, graph: &Graph<Op>, name: &String) -> (r: Option<String>)
        requires
            graph.wf(),
            self.matches_graph(graph@),
        ensures
            match r {
                Some(v) => dep_value(graph@, self.entry@, self.vals.deep_view(), name@) == Some(
                    v@,
                ),
                None => dep_value(graph@, self.entry@, self.vals.deep_view(), name@) is None,
            },
    {
        if name_is_entrypoint(name) {
            Some(self.entry.clone())
        } else {
            match graph.find_node(name) {
                Some(k) => {
                    proof {
                        lemma_node_index_unique(graph@, k as int);
                    }
                    match &self.vals[k] {
                        Some(v) => Some(v.clone()),
                        None => None,
                    }
                },
                None => {
                    proof {
                        assert(!has_node(graph@, name@));
                    }
                    None
                },
            }
        }
    }

    /// Whether node `i` may fire: every declared dependency has a value.
    pub fn node_is_ready<Op>(&self, graph: &Graph<Op>, i: usize) -> (b: bool)
        requires
            graph.wf(),
            self.matches_graph(graph@),
            i < graph@.len(),
        ensures
            b == node_ready(graph@, self.entry@, self.vals.deep_view(), i as int),
    {
        let node = &graph.nodes[i];
        let m = node.inputs.len();
        proof {
            assert(node@ == graph@[i as int]);
        }
        for j in 0..m
            invariant
                graph.wf(),
                self.matches_graph(graph@),
                i < graph@.len(),
                node@ == graph@[i as int],
                m == graph@[i as int].inputs.len(),
                forall|l: int|
                    0 <= l < j ==> dep_value(
                        graph@,
                        self.entry@,
                        self.vals.deep_view(),
                        #[trigger] graph@[i as int].inputs[l],
                    ) is Some,
        {
            let dep = &node.inputs[j];
            assert(dep@ == graph@[i as int].inputs[j as int]);
            if self.lookup(graph, dep).is_none() {
                return false;
            }
        }
        true
    }

    /// The least unsettled node that may fire, if any; `None` once no
    /// further node can make progress.
    pub fn next_ready<Op>(&self, graph: &Graph<Op>) -> (r: Option<usize>)
        requires
            graph.wf(),
            self.matches_graph(graph@),
        ensures
            match r {
                Some(i) => {
                    &&& i < graph@.len()
                    &&& self.vals.deep_view()[i as int] is None
                    &&& node_ready(graph@, self.entry@, self.vals.deep_view(), i as int)
                    &&& forall|k: int|
                        0 <= k < i ==> !(self.vals.deep_view()[k] is None && node_ready(
                            graph@,
                            self.entry@,
                            self.vals.deep_view(),
                            k,
                        ))
                },
                None => no_node_ready(graph@, self.entry@, self.vals.deep_view()),
            },
    {
        let n = graph.node_count();
        for i in 0..n
            invariant
                graph.wf(),
                self.matches_graph(graph@),
                n == graph@.len(),
                forall|k: int|
                    0 <= k < i ==> !(self.vals.deep_view()[k] is None && node_ready(
                        graph@,
                        self.entry@,
                        self.vals.deep_view(),
                        k,
                    )),
        {
            if !self.has_value(i) && self.node_is_ready(graph, i) {
                return Some(i);
            }
        }
        None
    }

    /// The inputs for node `i`, assembled strictly in declared order: the
    /// value of dependency `j` stands at position `j`, whatever order the
    /// values were settled in. `None` exactly when the node is not ready.
    pub fn ready_inputs<Op>(&self, graph: &Graph<Op>, i: usize) -> (r: Option<Vec<String>>)
        requires
            graph.wf(),
            self.matches_graph(graph@),
            i < graph@.len(),
        ensures
            match r {
                Some(args) => {
                    &&& node_ready(graph@, self.entry@, self.vals.deep_view(), i as int)
                    &&& args.deep_view() =~= assembled_inputs(
                        graph@,
                        self.entry@,
                        self.vals.deep_view(),
                        i as int,
                    )
                },
                None => !node_ready(graph@, self.entry@, self.vals.deep_view(), i as int),
            },
    {
        let node = &graph.nodes[i];
        let m = node.inputs.len();
        proof {
            assert(node@ == graph@[i as int]);
        }
        let mut args: Vec<String> = Vec::new();
        for j in 0..m
            invariant
                graph.wf(),
                self.matches_graph(graph@),
                i < graph@.len(),
                node@ == graph@[i as int],
                m == graph@[i as int].inputs.len(),
                args@.len() == j,
                forall|l: int|
                    0 <= l < j ==> dep_value(
                        graph@,
                        self.entry@,
                        self.vals.deep_view(),
                        #[trigger] graph@[i as int].inputs[l],
                    ) is Some,
                forall|l: int|
                    0 <= l < j ==> args.deep_view()[l] == dep_value(
                        graph@,
                        self.entry@,
                        self.vals.deep_view(),
                        #[trigger] graph@[i as int].inputs[l],
                    )->0,
        {
            let dep = &node.inputs[j];
            assert(dep@ == graph@[i as int].inputs[j as int]);
            match self.lookup(graph, dep) {
                Some(v) => {
                    args.push(v);
                },
                None => {
                    return None;
                },
            }
        }
        Some(args)
    }

    /// Settles node `i`'s slot with the value its operation produced. Each
    /// slot is written at most once per run.
    pub fn complete(&mut self, i: usize, value: String)
        requires
            i < old(self).vals@.len(),
            old(self).vals.deep_view()[i as int] is None,
        ensures
            final(self).entry == old(self).entry,
            final(self).vals.deep_view() =~= old(self).vals.deep_view().update(
                i as int,
                Some(value@),
            ),
    {
        self.vals.set(i, Some(value));
    }
}

/// Settling one slot leaves every already-ready node ready, with the same
/// assembled inputs.
pub proof fn lemma_node_stable_after_update(
    g: Seq<NodeView>,
    entry: Seq<char>,
    vals: Seq<Option<Seq<char>>>,
    i: int,
    v: Seq<char>,
    k: int,
)
    requires
        vals.len() == g.len(),
        0 <= i < vals.len(),
        vals[i] is None,
        0 <= k < g.len(),
        node_ready(g, entry, vals, k),
    ensures
        node_ready(g, entry, vals.update(i, Some(v)), k),
        assembled_inputs(g, entry, vals.update(i, Some(v)), k) == assembled_inputs(
            g,
            entry,
            vals,
            k,
        ),
{
    let vals2 = vals.update(i, Some(v));
    assert forall|j: int| 0 <= j < g[k].inputs.len() implies dep_value(
        g,
        entry,
        vals2,
        #[trigger] g[k].inputs[j],
    ) == dep_value(g, entry, vals, g[k].inputs[j]) && dep_value(g, entry, vals2, g[k].inputs[j])
        is Some by {
        lemma_dep_value_after_update(g, entry, vals, i, v, g[k].inputs[j]);
    }
    assert(assembled_inputs(g, entry, vals2, k) =~= assembled_inputs(g, entry, vals, k));
}

/// Firing a ready node preserves assignment validity: the settled slot
/// holds a value its operation can return for the inputs assembled in
/// declared order, and no other node's inputs change.
pub proof fn lemma_assignment_after_fire<Op: Fn(Vec<String>) -> String>(
    g: Seq<NodeView>,
    ops: Seq<Op>,
    entry: Seq<char>,
    vals: Seq<Option<Seq<char>>>,
    i: int,
    args: Vec<String>,
    out: String,
)
    requires
        valid_assignment(g, ops, entry, vals),
        0 <= i < g.len(),
        vals[i] is None,
        node_ready(g, entry, vals, i),
        args.deep_view() == assembled_inputs(g, entry, vals, i),
        call_ensures(ops[i], (args,), out),
    ensures
        valid_assignment(g, ops, entry, vals.update(i, Some(out@))),
{
    let vals2 = vals.update(i, Some(out@));
    assert forall|k: int| 0 <= k < g.len() implies node_computed(g, ops, entry, vals2, k) by {
        if vals2[k] is Some {
            if k == i {
                lemma_node_stable_after_update(g, entry, vals, i, out@, i);
                assert(args.deep_view() == assembled_inputs(g, entry, vals2, i) && out@
                    == vals2[i]->0 && call_ensures(ops[i], (args,), out));
            } else {
                assert(vals2[k] == vals[k]);
                assert(node_computed(g, ops, entry, vals, k));
                lemma_node_stable_after_update(g, entry, vals, i, out@, k);
                let (args0, out0) = choose|a: Vec<String>, o: String|
                    a.deep_view() == assembled_inputs(g, entry, vals, k) && o@ == vals[k]->0
                        && call_ensures(ops[k], (a,), o);
                assert(args0.deep_view() == assembled_inputs(g, entry, vals2, k) && out0@
                    == vals2[k]->0 && call_ensures(ops[k], (args0,), out0));
            }
        }
    }
}

impl<Op: Fn(Vec<String>) -> String> Graph<Op> {
    /// Executes the staged graph once for one entrypoint value.
    ///
    /// Every referenced name is resolved before anything is scheduled; an
    /// unresolvable name yields the complete configuration report and no
    /// operation runs. Otherwise nodes fire as their declared dependencies
    /// settle, each exactly once, its inputs assembled in declared order,
    /// until no node can make progress; the value of the node named
    /// `output_name` (or the entrypoint value itself, for the reserved
    /// name) is returned. The run never hangs: on a validated acyclic
    /// graph — witnessed by any rank function — the output is owed, and a
    /// dependency cycle that starves the requested output is reported
    /// instead.
    pub fn run(&self, entrypoint_value: String, output_name: String) -> (r: Result<
        String,
        ExecutionError,
    >)
        requires
            self.wf(),
            forall|i: int, args: Vec<String>|
                0 <= i < self@.len() ==> #[trigger] call_requires(self.ops()[i], (args,)),
        ensures
            (r matches Err(ExecutionError::Configuration { issues: _ })) <==> !runnable(
                self@,
                output_name@,
            ),
            r matches Err(ExecutionError::Configuration { issues }) ==> issues@.map_values(
                |c: ConfigIssue| c@,
            ) =~= config_issues(self@, output_name@),
            r matches Ok(v) ==> exists|vals: Seq<Option<Seq<char>>>|
                #[trigger] run_complete(self@, self.ops(), entrypoint_value@, vals) && dep_value(
                    self@,
                    entrypoint_value@,
                    vals,
                    output_name@,
                ) == Some(v@),
            r matches Err(ExecutionError::OutputUnavailable { name }) ==> {
                &&& name@ == output_name@
                &&& runnable(self@, output_name@)
                &&& exists|vals: Seq<Option<Seq<char>>>|
                    #[trigger] run_complete(self@, self.ops(), entrypoint_value@, vals)
                        && dep_value(self@, entrypoint_value@, vals, output_name@) is None
            },
            runnable(self@, output_name@) && (exists|rank: spec_fn(int) -> nat|
                rank_decreasing(self@, rank)) ==> r is Ok,
    {
        match self.validate(&output_name) {
            Err(e) => {
                return Err(e);
            },
            Ok(()) => {},
        }
        let ghost entry = entrypoint_value@;
        let mut st = self.start_run(entrypoint_value);
        assert(valid_assignment(self@, self.ops(), entry, st.vals.deep_view()));
        let mut done = false;
        while !done
            invariant
                self.wf(),
                runnable(self@, output_name@),
                forall|i: int, args: Vec<String>|
                    0 <= i < self@.len() ==> #[trigger] call_requires(self.ops()[i], (args,)),
                st.entry@ == entry,
                st.matches_graph(self@),
                valid_assignment(self@, self.ops(), entry, st.vals.deep_view()),
                done ==> no_node_ready(self@, entry, st.vals.deep_view()),
            decreases count_none(st.vals.deep_view()), (if done {
                0int
            } else {
                1int
            }),
        {
            match st.next_ready(self) {
                Some(i) => {
                    let ghost prev = st.vals.deep_view();
                    let args = st.ready_inputs(self, i).unwrap();
                    let ghost gargs = args;
                    let node = &self.nodes[i];
                    proof {
                        assert(self.ops()[i as int] == node.op);
                        assert(call_requires(node.op, (args,)));
                    }
                    let value = (node.op)(args);
                    proof {
                        lemma_assignment_after_fire(
                            self@,
                            self.ops(),
                            entry,
                            prev,
                            i as int,
                            gargs,
                            value,
                        );
                        lemma_count_none_update(prev, i as int, value@);
                    }
                    st.complete(i, value);
                },
                None => {
                    done = true;
                },
            }
        }
        let ghost w = st.vals.deep_view();
        proof {
            assert(run_complete(self@, self.ops(), entry, w));
        }
        match st.lookup(self, &output_name) {
            Some(v) => {
                proof {
                    assert(run_complete(self@, self.ops(), entry, w) && dep_value(
                        self@,
                        entry,
                        w,
                        output_name@,
                    ) == Some(v@));
                }
                Ok(v)
            },
            None => {
                proof {
                    assert(run_complete(self@, self.ops(), entry, w) && dep_value(
                        self@,
                        entry,
                        w,
                        output_name@,
                    ) is None);
                    if exists|rank: spec_fn(int) -> nat| rank_decreasing(self@, rank) {
                        let rank = choose|rank: spec_fn(int) -> nat| rank_decreasing(self@, rank);
                        lemma_acyclic_output_settles(
                            self@,
                            self.ops(),
                            entry,
                            w,
                            rank,
                            output_name@,
                        );
                    }
                }
                Err(ExecutionError::OutputUnavailable { name: output_name })
            },
        }
    }
}

impl<Op> Graph<Op> {
    /// Fresh state for one run: the caller's entrypoint value and every
    /// slot unsettled. Earlier runs leave no trace in it.
    pub fn start_run(&self, entrypoint_value: String) -> (st: RunState)
        ensures
            st.entry@ == entrypoint_value@,
            st.matches_graph(self@),
            forall|i: int| 0 <= i < self@.len() ==> st.vals.deep_view()[i] is None,
    {
        let n = self.node_count();
        let mut vals: Vec<Option<String>> = Vec::new();
        for k in 0..n
            invariant
                vals@.len() == k,
                forall|i: int| 0 <= i < k ==> vals.deep_view()[i] is None,
        {
            let ghost prev = vals.deep_view();
            vals.push(None);
            proof {
                assert forall|i: int| 0 <= i < k + 1 implies vals.deep_view()[i] is None by {
                    if i < k {
                        assert(vals@[i] == vals@.drop_last()[i]);
                        assert(vals.deep_view()[i] == prev[i]);
                    } else {
                        assert(vals@[i] is None);
                    }
                }
            }
        }
        RunState { entry: entrypoint_value, vals }
    }
}

} // verus!
