//! The static graph: named nodes, their declared dependencies, and the
//! pre-run validation pass that resolves every referenced name.

use vstd::prelude::*;
use vstd::pervasive::VecAdditionalExecFns;
use vstd::string::StringExecFns;
use crate::errors::{ConfigIssue, ExecutionError, IssueView};

verus! {

/// The reserved dependency name. A node that declares it as a dependency
/// receives the value the caller hands to a run; it never resolves to a
/// staged node, even if one of this name was staged.
pub open spec fn entrypoint_name() -> Seq<char> {
    "entrypoint"@
}

/// Mathematical image of a node: its name and its declared dependency
/// names, in declared order.
pub struct NodeView {
    pub name: Seq<char>,
    pub inputs: Seq<Seq<char>>,
}

/// One computation unit: a name other nodes refer to it by, the ordered
/// names of the nodes it takes input from, and the operation fired once
/// every input value is available. The declared order of `inputs` is the
/// order values are assembled into the vector handed to `op`.
pub struct Node<Op> {
    pub name: String,
    pub inputs: Vec<String>,
    pub op: Op,
}

impl<Op> View for Node<Op> {
    type V = NodeView;

    open spec fn view(&self) -> NodeView {
        NodeView { name: self.name@, inputs: self.inputs.deep_view() }
    }
}

impl<Op> DeepView for Node<Op> {
    type V = NodeView;

    open spec fn deep_view(&self) -> NodeView {
        self@
    }
}

impl<Op> Node<Op> {
    /// Construction performs no validation: dependency names may refer to
    /// nodes not yet staged, and are resolved only when a run starts.
    pub fn new(name: String, inputs: Vec<String>, op: Op) -> (n: Node<Op>)
        ensures
            n@.name == name@,
            n@.inputs == inputs.deep_view(),
            n.op == op,
    {
        Node { name, inputs, op }
    }
}

/// True when no two nodes share a name.
pub open spec fn distinct_names(g: Seq<NodeView>) -> bool {
    forall|i: int, k: int|
        0 <= i < g.len() && 0 <= k < g.len() && i != k ==> g[i].name != g[k].name
}

/// True when some node of `g` is named `name`.
pub open spec fn has_node(g: Seq<NodeView>, name: Seq<char>) -> bool {
    exists|j: int| 0 <= j < g.len() && g[j].name == name
}

/// The index of the node named `name`; meaningful when `has_node` holds and
/// names are distinct.
pub open spec fn node_index(g: Seq<NodeView>, name: Seq<char>) -> int {
    choose|j: int| 0 <= j < g.len() && g[j].name == name
}

/// A referenced name resolves when it is the reserved entrypoint name or
/// names a staged node.
pub open spec fn resolves(g: Seq<NodeView>, name: Seq<char>) -> bool {
    name == entrypoint_name() || has_node(g, name)
}

/// Every dependency declared by any node of `g` resolves.
pub open spec fn all_deps_resolve(g: Seq<NodeView>) -> bool {
    forall|i: int, j: int|
        0 <= i < g.len() && 0 <= j < g[i].inputs.len() ==> resolves(
            g,
            #[trigger] g[i].inputs[j],
        )
}

/// A run of `g` asked for output `out` may proceed: the output name and
/// every declared dependency resolve.
pub open spec fn runnable(g: Seq<NodeView>, out: Seq<char>) -> bool {
    resolves(g, out) && all_deps_resolve(g)
}

/// With distinct names, a node's index is determined by its name.
pub proof fn lemma_node_index_unique(g: Seq<NodeView>, i: int)
    requires
        distinct_names(g),
        0 <= i < g.len(),
    ensures
        has_node(g, g[i].name),
        node_index(g, g[i].name) == i,
{
    assert(has_node(g, g[i].name));
    let j = node_index(g, g[i].name);
    assert(0 <= j < g.len() && g[j].name == g[i].name);
}

/// The issues contributed by the first `j` declared dependencies of node
/// `n`, in declared order.
pub open spec fn node_issues_upto(g: Seq<NodeView>, n: NodeView, j: int) -> Seq<IssueView>
    decreases j,
{
    if j <= 0 {
        Seq::empty()
    } else {
        node_issues_upto(g, n, j - 1) + (if resolves(g, n.inputs[j - 1]) {
            Seq::empty()
        } else {
            seq![IssueView::MissingDependency { node: n.name, dependency: n.inputs[j - 1] }]
        })
    }
}

/// The issues contributed by the first `i` staged nodes, in staging order.
pub open spec fn graph_issues_upto(g: Seq<NodeView>, i: int) -> Seq<IssueView>
    decreases i,
{
    if i <= 0 {
        Seq::empty()
    } else {
        graph_issues_upto(g, i - 1) + node_issues_upto(g, g[i - 1], g[i - 1].inputs.len() as int)
    }
}

/// The full validation report for graph `g` and requested output `out`: the
/// unresolvable output name first, then every unresolvable dependency, nodes
/// in staging order and dependencies in declared order.
pub open spec fn config_issues(g: Seq<NodeView>, out: Seq<char>) -> Seq<IssueView> {
    (if resolves(g, out) {
        Seq::empty()
    } else {
        seq![IssueView::MissingOutput { name: out }]
    }) + graph_issues_upto(g, g.len() as int)
}

/// A node's issue list is empty exactly when its first `j` dependencies all
/// resolve.
pub proof fn lemma_node_issues_empty(g: Seq<NodeView>, n: NodeView, j: int)
    requires
        0 <= j <= n.inputs.len(),
    ensures
        node_issues_upto(g, n, j).len() == 0 <==> (forall|l: int|
            0 <= l < j ==> resolves(g, #[trigger] n.inputs[l])),
    decreases j,
{
    if j > 0 {
        lemma_node_issues_empty(g, n, j - 1);
    }
}

/// The graph's issue list is empty exactly when every dependency of the
/// first `i` nodes resolves.
pub proof fn lemma_graph_issues_empty(g: Seq<NodeView>, i: int)
    requires
        0 <= i <= g.len(),
    ensures
        graph_issues_upto(g, i).len() == 0 <==> (forall|k: int, l: int|
            0 <= k < i && 0 <= l < g[k].inputs.len() ==> resolves(g, #[trigger] g[k].inputs[l])),
    decreases i,
{
    if i > 0 {
        lemma_graph_issues_empty(g, i - 1);
        lemma_node_issues_empty(g, g[i - 1], g[i - 1].inputs.len() as int);
    }
}

/// The validation report is empty exactly when the run may proceed.
pub proof fn lemma_config_issues_empty(g: Seq<NodeView>, out: Seq<char>)
    ensures
        config_issues(g, out).len() == 0 <==> runnable(g, out),
{
    lemma_graph_issues_empty(g, g.len() as int);
}

/// An unresolvable output name heads the validation report.
pub proof fn lemma_missing_output_reported(g: Seq<NodeView>, out: Seq<char>)
    requires
        !resolves(g, out),
    ensures
        config_issues(g, out).len() >= 1,
        config_issues(g, out)[0] == (IssueView::MissingOutput { name: out }),
{
}

/// Every unresolvable dependency appears in its node's issue list.
pub proof fn lemma_node_issue_reported(g: Seq<NodeView>, n: NodeView, l: int, j: int)
    requires
        0 <= l < j <= n.inputs.len(),
        !resolves(g, n.inputs[l]),
    ensures
        node_issues_upto(g, n, j).contains(
            IssueView::MissingDependency { node: n.name, dependency: n.inputs[l] },
        ),
    decreases j,
{
    let issue = IssueView::MissingDependency { node: n.name, dependency: n.inputs[l] };
    if l == j - 1 {
        let s = node_issues_upto(g, n, j);
        assert(s[s.len() - 1] == issue);
    } else {
        lemma_node_issue_reported(g, n, l, j - 1);
        let prev = node_issues_upto(g, n, j - 1);
        let k = choose|k: int| 0 <= k < prev.len() && prev[k] == issue;
        assert(node_issues_upto(g, n, j)[k] == issue);
    }
}

/// Every unresolvable dependency of any node appears in the validation
/// report, attributed to the declaring node (the law behind the
/// missing-dependency guarantee).
pub proof fn lemma_missing_dependency_reported(g: Seq<NodeView>, out: Seq<char>, i: int, l: int)
    requires
        0 <= i < g.len(),
        0 <= l < g[i].inputs.len(),
        !resolves(g, g[i].inputs[l]),
    ensures
        config_issues(g, out).contains(
            IssueView::MissingDependency { node: g[i].name, dependency: g[i].inputs[l] },
        ),
{
    let issue = IssueView::MissingDependency { node: g[i].name, dependency: g[i].inputs[l] };
    lemma_node_issue_reported(g, g[i], l, g[i].inputs.len() as int);
    lemma_graph_issue_lifted(g, i, g.len() as int, issue);
    let s = graph_issues_upto(g, g.len() as int);
    let k = choose|k: int| 0 <= k < s.len() && s[k] == issue;
    let head = if resolves(g, out) {
        Seq::<IssueView>::empty()
    } else {
        seq![IssueView::MissingOutput { name: out }]
    };
    assert(config_issues(g, out)[head.len() + k] == issue);
}

/// An issue of node `i` appears in the graph-level list covering node `i`.
proof fn lemma_graph_issue_lifted(g: Seq<NodeView>, i: int, imax: int, issue: IssueView)
    requires
        0 <= i < imax <= g.len(),
        node_issues_upto(g, g[i], g[i].inputs.len() as int).contains(issue),
    ensures
        graph_issues_upto(g, imax).contains(issue),
    decreases imax,
{
    if i == imax - 1 {
        let prev = graph_issues_upto(g, imax - 1);
        let node = node_issues_upto(g, g[i], g[i].inputs.len() as int);
        let k = choose|k: int| 0 <= k < node.len() && node[k] == issue;
        assert(graph_issues_upto(g, imax)[prev.len() + k] == issue);
    } else {
        lemma_graph_issue_lifted(g, i, imax - 1, issue);
        let prev = graph_issues_upto(g, imax - 1);
        let k = choose|k: int| 0 <= k < prev.len() && prev[k] == issue;
        assert(graph_issues_upto(g, imax)[k] == issue);
    }
}

/// The graph registry: owns every staged node, keyed by name. Built by
/// repeated [`Graph::stage_node`] calls, then consumed by runs.
pub struct Graph<Op> {
    pub nodes: Vec<Node<Op>>,
}

impl<Op> View for Graph<Op> {
    type V = Seq<NodeView>;

    open spec fn view(&self) -> Seq<NodeView> {
        self.nodes.deep_view()
    }
}

impl<Op> Default for Graph<Op> {
    /// An empty graph with no staged nodes.
    fn default() -> (g: Graph<Op>)
        ensures
            g@.len() == 0,
            g.wf(),
    {
        Graph { nodes: Vec::new() }
    }
}

impl<Op> Graph<Op> {
    /// A graph is well formed when no two staged nodes share a name;
    /// staging keeps it so by replacing on a name collision.
    pub open spec fn wf(self) -> bool {
        distinct_names(self@)
    }

    /// The staged operations, aligned with the nodes of the view.
    pub open spec fn ops(self) -> Seq<Op> {
        self.nodes@.map_values(|n: Node<Op>| n.op)
    }

    /// The number of staged nodes.
    pub fn node_count(&self) -> (n: usize)
        ensures
            n == self@.len(),
    {
        self.nodes.len()
    }

    /// The index of the staged node named `name`, if any.
    pub fn find_node(&self, name: &String) -> (r: Option<usize>)
        ensures
            match r {
                Some(i) => i < self@.len() && self@[i as int].name == name@,
                None => !has_node(self@, name@),
            },
    {
        let n = self.nodes.len();
        for i in 0..n
            invariant
                n == self@.len(),
                forall|k: int| 0 <= k < i ==> self@[k].name != name@,
        {
            if self.nodes[i].name == *name {
                return Some(i);
            }
        }
        None
    }

    /// True exactly when `name` resolves against this graph: it is the
    /// reserved entrypoint name or names a staged node.
    pub fn resolves_name(&self, name: &String) -> (b: bool)
        ensures
            b == resolves(self@, name@),
    {
        if name_is_entrypoint(name) {
            true
        } else {
            match self.find_node(name) {
                Some(i) => {
                    proof {
                        assert(self@[i as int].name == name@);
                        assert(has_node(self@, name@));
                    }
                    true
                },
                None => false,
            }
        }
    }

    /// Registers a node under `name`. Staging a name a second time
    /// deliberately replaces the earlier registration in place; otherwise
    /// the node is appended. No name is validated here: dependencies are
    /// resolved only when a run starts.
    pub fn stage_node(&mut self, name: String, inputs: Vec<String>, op: Op)
        requires
            old(self).wf(),
        ensures
            final(self).wf(),
            has_node(old(self)@, name@) ==> {
                &&& final(self)@ =~= old(self)@.update(
                    node_index(old(self)@, name@),
                    NodeView { name: name@, inputs: inputs.deep_view() },
                )
                &&& final(self).ops() =~= old(self).ops().update(
                    node_index(old(self)@, name@),
                    op,
                )
            },
            !has_node(old(self)@, name@) ==> {
                &&& final(self)@ =~= old(self)@.push(
                    NodeView { name: name@, inputs: inputs.deep_view() },
                )
                &&& final(self).ops() =~= old(self).ops().push(op)
            },
    {
        let found = self.find_node(&name);
        match found {
            Some(i) => {
                proof {
                    lemma_node_index_unique(old(self)@, i as int);
                }
                self.nodes.set(i, Node::new(name, inputs, op));
                proof {
                    assert forall|a: int, b: int|
                        0 <= a < self@.len() && 0 <= b < self@.len() && a != b implies self@[a].name
                        != self@[b].name by {
                        assert(self@[a].name == old(self)@[a].name);
                        assert(self@[b].name == old(self)@[b].name);
                    }
                }
            },
            None => {
                self.nodes.push(Node::new(name, inputs, op));
                proof {
                    assert forall|a: int, b: int|
                        0 <= a < self@.len() && 0 <= b < self@.len() && a != b implies self@[a].name
                        != self@[b].name by {
                        if a < old(self)@.len() && b < old(self)@.len() {
                            assert(self@[a].name == old(self)@[a].name);
                            assert(self@[b].name == old(self)@[b].name);
                        } else if b == old(self)@.len() {
                            assert(self@[b].name == name@);
                            assert(self@[a].name == old(self)@[a].name);
                            if old(self)@[a].name == name@ {
                                assert(has_node(old(self)@, name@));
                            }
                        } else {
                            assert(self@[a].name == name@);
                            assert(self@[b].name == old(self)@[b].name);
                            if old(self)@[b].name == name@ {
                                assert(has_node(old(self)@, name@));
                            }
                        }
                    }
                }
            },
        }
    }

    /// Resolves the requested output name and every declared dependency of
    /// every staged node, before anything is scheduled. Returns `Ok` exactly
    /// when all of them resolve; otherwise the complete report, the
    /// unresolvable output first, then each node's unresolvable dependencies
    /// in staging and declared order.
    pub fn validate(&self, output_name: &String) -> (r: Result<(), ExecutionError>)
        ensures
            r is Ok <==> runnable(self@, output_name@),
            r matches Err(e) ==> e matches ExecutionError::Configuration { issues }
                && issues@.map_values(|c: ConfigIssue| c@) =~= config_issues(self@, output_name@),
    {
        let mut issues: Vec<ConfigIssue> = Vec::new();
        if !self.resolves_name(output_name) {
            issues.push(ConfigIssue::MissingOutput { name: output_name.clone() });
        }
        let ghost head = if resolves(self@, output_name@) {
            Seq::<IssueView>::empty()
        } else {
            seq![IssueView::MissingOutput { name: output_name@ }]
        };
        assert(issues@.map_values(|c: ConfigIssue| c@) =~= head);
        let n = self.nodes.len();
        for i in 0..n
            invariant
                n == self@.len(),
                issues@.map_values(|c: ConfigIssue| c@) =~= head + graph_issues_upto(
                    self@,
                    i as int,
                ),
        {
            let node = &self.nodes[i];
            let m = node.inputs.len();
            assert(node@ == self@[i as int]);
            for j in 0..m
                invariant
                    n == self@.len(),
                    i < n,
                    m == self@[i as int].inputs.len(),
                    node@ == self@[i as int],
                    issues@.map_values(|c: ConfigIssue| c@) =~= head + graph_issues_upto(
                        self@,
                        i as int,
                    ) + node_issues_upto(self@, self@[i as int], j as int),
            {
                let dep = &node.inputs[j];
                assert(dep@ == self@[i as int].inputs[j as int]);
                let ghost issues_before = issues@.map_values(|c: ConfigIssue| c@);
                if !self.resolves_name(dep) {
                    issues.push(
                        ConfigIssue::MissingDependency {
                            node: node.name.clone(),
                            dependency: dep.clone(),
                        },
                    );
                    proof {
                        let issue = IssueView::MissingDependency {
                            node: self@[i as int].name,
                            dependency: self@[i as int].inputs[j as int],
                        };
                        assert(issues@.map_values(|c: ConfigIssue| c@) =~= issues_before.push(
                            issue,
                        ));
                        assert(node_issues_upto(self@, self@[i as int], j as int + 1)
                            =~= node_issues_upto(self@, self@[i as int], j as int) + seq![issue]);
                    }
                } else {
                    proof {
                        assert(node_issues_upto(self@, self@[i as int], j as int + 1)
                            =~= node_issues_upto(self@, self@[i as int], j as int));
                    }
                }
            }
            proof {
                assert(graph_issues_upto(self@, i as int + 1) =~= graph_issues_upto(self@, i as int)
                    + node_issues_upto(
                    self@,
                    self@[i as int],
                    self@[i as int].inputs.len() as int,
                ));
            }
        }
        proof {
            lemma_config_issues_empty(self@, output_name@);
        }
        if issues.len() == 0 {
            Ok(())
        } else {
            Err(ExecutionError::Configuration { issues })
        }
    }
}

/// True exactly when `name` is the reserved entrypoint name.
pub fn name_is_entrypoint(name: &String) -> (b: bool)
    ensures
        b == (name@ == entrypoint_name()),
{
    let e = entrypoint_string();
    *name == e
}

/// The reserved entrypoint name as an owned string.
pub fn entrypoint_string() -> (s: String)
    ensures
        s@ == entrypoint_name(),
{
    String::from_str("entrypoint")
}

} // verus!
