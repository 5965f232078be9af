use inference_graph::graph::Graph;

type Op = fn(Vec<String>) -> String;

fn concat(x: Vec<String>) -> String {
    x.concat()
}

#[test]
fn step_machine_runs_to_completion() {
    let mut graph: Graph<Op> = Graph::default();
    graph.stage_node("A".into(), vec!["entrypoint".into()], concat);
    graph.stage_node("B".into(), vec!["entrypoint".into()], concat);
    graph.stage_node("C".into(), vec!["A".into(), "B".into()], concat);
    let out_name: String = "C".into();
    assert!(graph.validate(&out_name).is_ok());
    let mut state = graph.start_run("hubba".into());
    while let Some(i) = state.next_ready(&graph) {
        let args = state.ready_inputs(&graph, i).unwrap();
        let value = concat(args);
        state.complete(i, value);
    }
    assert_eq!(state.lookup(&graph, &out_name), Some("hubbahubba".to_string()));
}

#[test]
fn assembled_inputs_follow_declared_order() {
    let mut graph: Graph<Op> = Graph::default();
    graph.stage_node("A".into(), vec!["entrypoint".into()], concat);
    graph.stage_node("B".into(), vec!["entrypoint".into()], concat);
    graph.stage_node("C".into(), vec!["B".into(), "A".into()], concat);
    let mut state = graph.start_run("x".into());
    let a = graph.find_node(&String::from("A")).unwrap();
    let b = graph.find_node(&String::from("B")).unwrap();
    let c = graph.find_node(&String::from("C")).unwrap();
    // settle the producers with distinct values, completion order reversed
    assert!(state.ready_inputs(&graph, c).is_none());
    state.complete(b, "vb".to_string());
    assert!(state.ready_inputs(&graph, c).is_none());
    state.complete(a, "va".to_string());
    // the assembly follows the declaration [B, A], not name or completion order
    let args = state.ready_inputs(&graph, c).unwrap();
    assert_eq!(args, vec!["vb".to_string(), "va".to_string()]);
}

#[test]
fn fan_out_delivers_one_value_to_each_subscriber() {
    let mut graph: Graph<Op> = Graph::default();
    graph.stage_node("A".into(), vec!["entrypoint".into()], concat);
    graph.stage_node("B".into(), vec!["entrypoint".into()], concat);
    let mut state = graph.start_run("shared".into());
    let a = graph.find_node(&String::from("A")).unwrap();
    let b = graph.find_node(&String::from("B")).unwrap();
    let args_a = state.ready_inputs(&graph, a).unwrap();
    let args_b = state.ready_inputs(&graph, b).unwrap();
    assert_eq!(args_a, vec!["shared".to_string()]);
    assert_eq!(args_b, vec!["shared".to_string()]);
    state.complete(a, concat(args_a));
    state.complete(b, concat(args_b));
    assert!(state.has_value(a));
    assert!(state.has_value(b));
    assert!(state.next_ready(&graph).is_none());
}

#[test]
fn fresh_state_is_isolated_between_runs() {
    let mut graph: Graph<Op> = Graph::default();
    graph.stage_node("A".into(), vec!["entrypoint".into()], concat);
    let a = graph.find_node(&String::from("A")).unwrap();
    let mut first = graph.start_run("one".into());
    first.complete(a, "stale".to_string());
    let second = graph.start_run("two".into());
    assert!(!second.has_value(a));
    assert_eq!(second.lookup(&graph, &String::from("entrypoint")), Some("two".to_string()));
    assert_eq!(second.lookup(&graph, &String::from("A")), None);
}
