use inference_graph::errors::{ConfigIssue, ExecutionError};
use inference_graph::graph::Graph;

type Op = fn(Vec<String>) -> String;

fn concat(x: Vec<String>) -> String {
    x.concat()
}

fn tag_a(x: Vec<String>) -> String {
    format!("{}a", x.concat())
}

fn tag_b(x: Vec<String>) -> String {
    format!("{}b", x.concat())
}

fn constant_nope(_x: Vec<String>) -> String {
    "nope".to_string()
}

#[test]
fn basic_graph() {
    let mut graph: Graph<Op> = Graph::default();
    graph.stage_node("A".into(), vec!["entrypoint".into()], concat);
    graph.stage_node("B".into(), vec!["entrypoint".into()], concat);
    graph.stage_node("C".into(), vec!["A".into(), "B".into()], concat);
    let output = graph.run("hubba".into(), "C".into());
    assert!(output.is_ok());
    assert_eq!(output.unwrap(), "hubbahubba".to_string());
}

#[test]
fn single_node_passes_entry_through() {
    let mut graph: Graph<Op> = Graph::default();
    graph.stage_node("A".into(), vec!["entrypoint".into()], concat);
    let output = graph.run("x".into(), "A".into());
    assert_eq!(output.unwrap(), "x".to_string());
}

#[test]
fn repeated_runs_agree() {
    let mut graph: Graph<Op> = Graph::default();
    graph.stage_node("A".into(), vec!["entrypoint".into()], tag_a);
    graph.stage_node("B".into(), vec!["entrypoint".into()], tag_b);
    graph.stage_node("C".into(), vec!["A".into(), "B".into()], concat);
    let first = graph.run("v".into(), "C".into()).unwrap();
    let second = graph.run("v".into(), "C".into()).unwrap();
    assert_eq!(first, "vavb".to_string());
    assert_eq!(second, first);
}

#[test]
fn runs_do_not_leak_entrypoint_values() {
    let mut graph: Graph<Op> = Graph::default();
    graph.stage_node("A".into(), vec!["entrypoint".into()], concat);
    graph.stage_node("B".into(), vec!["entrypoint".into()], concat);
    graph.stage_node("C".into(), vec!["A".into(), "B".into()], concat);
    let first = graph.run("hubba".into(), "C".into()).unwrap();
    assert_eq!(first, "hubbahubba".to_string());
    let second = graph.run("x".into(), "C".into()).unwrap();
    assert_eq!(second, "xx".to_string());
}

#[test]
fn diamond_orders_by_declaration_not_by_name() {
    let mut graph: Graph<Op> = Graph::default();
    graph.stage_node("A".into(), vec!["entrypoint".into()], tag_a);
    graph.stage_node("B".into(), vec!["entrypoint".into()], tag_b);
    graph.stage_node("C".into(), vec!["B".into(), "A".into()], concat);
    let output = graph.run("v".into(), "C".into()).unwrap();
    assert_eq!(output, "vbva".to_string());
}

#[test]
fn missing_output_is_a_configuration_error() {
    let mut graph: Graph<Op> = Graph::default();
    graph.stage_node("A".into(), vec!["entrypoint".into()], concat);
    let output = graph.run("x".into(), "B".into());
    match output {
        Err(ExecutionError::Configuration { issues }) => {
            assert_eq!(issues.len(), 1);
            match &issues[0] {
                ConfigIssue::MissingOutput { name } => assert_eq!(name, "B"),
                ConfigIssue::MissingDependency { .. } => panic!("wrong issue kind"),
            }
        }
        _ => panic!("expected a configuration error"),
    }
}

#[test]
fn missing_dependency_is_attributed_to_its_node() {
    let mut graph: Graph<Op> = Graph::default();
    graph.stage_node("A".into(), vec!["missing".into()], concat);
    let output = graph.run("x".into(), "A".into());
    match output {
        Err(ExecutionError::Configuration { issues }) => {
            assert_eq!(issues.len(), 1);
            match &issues[0] {
                ConfigIssue::MissingDependency { node, dependency } => {
                    assert_eq!(node, "A");
                    assert_eq!(dependency, "missing");
                }
                ConfigIssue::MissingOutput { .. } => panic!("wrong issue kind"),
            }
        }
        _ => panic!("expected a configuration error"),
    }
}

#[test]
fn every_problem_is_reported_in_order() {
    let mut graph: Graph<Op> = Graph::default();
    graph.stage_node("A".into(), vec!["missing".into()], concat);
    graph.stage_node("B".into(), vec!["entrypoint".into(), "lost".into()], concat);
    let output = graph.run("x".into(), "D".into());
    match output {
        Err(ExecutionError::Configuration { issues }) => {
            assert_eq!(issues.len(), 3);
            match &issues[0] {
                ConfigIssue::MissingOutput { name } => assert_eq!(name, "D"),
                ConfigIssue::MissingDependency { .. } => panic!("wrong issue kind"),
            }
            match &issues[1] {
                ConfigIssue::MissingDependency { node, dependency } => {
                    assert_eq!(node, "A");
                    assert_eq!(dependency, "missing");
                }
                ConfigIssue::MissingOutput { .. } => panic!("wrong issue kind"),
            }
            match &issues[2] {
                ConfigIssue::MissingDependency { node, dependency } => {
                    assert_eq!(node, "B");
                    assert_eq!(dependency, "lost");
                }
                ConfigIssue::MissingOutput { .. } => panic!("wrong issue kind"),
            }
        }
        _ => panic!("expected a configuration error"),
    }
}

#[test]
fn restaging_a_name_replaces_the_node() {
    let mut graph: Graph<Op> = Graph::default();
    graph.stage_node("A".into(), vec!["entrypoint".into()], constant_nope);
    graph.stage_node("A".into(), vec!["entrypoint".into()], concat);
    let output = graph.run("x".into(), "A".into()).unwrap();
    assert_eq!(output, "x".to_string());
}

#[test]
fn entrypoint_as_output_returns_the_entry_value() {
    let mut graph: Graph<Op> = Graph::default();
    let output = graph.run("x".into(), "entrypoint".into()).unwrap();
    assert_eq!(output, "x".to_string());
}

#[test]
fn entrypoint_name_is_reserved_even_if_staged() {
    let mut graph: Graph<Op> = Graph::default();
    graph.stage_node("entrypoint".into(), vec![], constant_nope);
    graph.stage_node("A".into(), vec!["entrypoint".into()], concat);
    let output = graph.run("x".into(), "A".into()).unwrap();
    assert_eq!(output, "x".to_string());
}

#[test]
fn zero_dependency_node_fires_immediately() {
    let mut graph: Graph<Op> = Graph::default();
    graph.stage_node("A".into(), vec![], constant_nope);
    let output = graph.run("x".into(), "A".into()).unwrap();
    assert_eq!(output, "nope".to_string());
}

#[test]
fn dependency_cycle_starves_the_output() {
    let mut graph: Graph<Op> = Graph::default();
    graph.stage_node("A".into(), vec!["B".into()], concat);
    graph.stage_node("B".into(), vec!["A".into()], concat);
    let output = graph.run("x".into(), "A".into());
    match output {
        Err(ExecutionError::OutputUnavailable { name }) => assert_eq!(name, "A"),
        _ => panic!("expected the output to be unavailable"),
    }
}

#[test]
fn error_descriptions_are_distinct() {
    let config = ExecutionError::Configuration { issues: Vec::new() };
    let starved = ExecutionError::OutputUnavailable { name: "A".into() };
    assert!(!config.describe().is_empty());
    assert!(!starved.describe().is_empty());
    assert_ne!(config.describe(), starved.describe());
}
