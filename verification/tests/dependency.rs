use pipeline_service::dependency::{build_job_graph, build_stage_graph, DependencyGraph};
use pipeline_service::pipeline_models::{Job, Stage};
use std::collections::HashMap;

#[test]
fn test_simple_dependency() {
    let mut graph = DependencyGraph::new(vec!["A", "B", "C"]);
    graph.add_dependency(0, 1); // A -> B
    graph.add_dependency(1, 2); // B -> C

    let sorted = graph.topological_sort().unwrap();
    assert_eq!(sorted, vec![0, 1, 2]);
}

#[test]
fn test_parallel_dependencies() {
    let mut graph = DependencyGraph::new(vec!["A", "B", "C", "D"]);
    graph.add_dependency(0, 2); // A -> C
    graph.add_dependency(1, 2); // B -> C
    graph.add_dependency(2, 3); // C -> D

    let levels = graph.get_execution_levels().unwrap();
    assert_eq!(levels.len(), 3);
    assert_eq!(levels[0].len(), 2); // A and B can run in parallel
    assert!(levels[0].contains(&0) && levels[0].contains(&1));
}

#[test]
fn test_circular_dependency() {
    let mut graph = DependencyGraph::new(vec!["A", "B", "C"]);
    graph.add_dependency(0, 1); // A -> B
    graph.add_dependency(1, 2); // B -> C
    graph.add_dependency(2, 0); // C -> A (circular!)

    assert!(graph.topological_sort().is_err());
}

#[test]
fn cycle_error_message() {
    let mut graph = DependencyGraph::new(vec![1, 2]);
    graph.add_dependency(0, 1);
    graph.add_dependency(1, 0);
    assert_eq!(graph.get_execution_levels().unwrap_err(), "Circular dependency detected");
    assert_eq!(graph.get_node(1), Some(&2));
    assert_eq!(graph.get_node(2), None);
}

fn stage(name: &str, deps: &[&str]) -> Stage {
    Stage {
        stage: name.to_string(),
        display_name: None,
        depends_on: deps.iter().map(|d| d.to_string()).collect(),
        condition: None,
        jobs: Vec::new(),
    }
}

fn job(name: &str, deps: &[&str]) -> Job {
    Job {
        job: name.to_string(),
        display_name: None,
        depends_on: deps.iter().map(|d| d.to_string()).collect(),
        condition: None,
        strategy: None,
        pool: None,
        env: HashMap::new(),
        steps: Vec::new(),
    }
}

#[test]
fn stage_graph_orders_stages() {
    let stages = vec![stage("Test", &["Build"]), stage("Build", &[]), stage("Deploy", &["Test", "Build"])];
    let graph = build_stage_graph(&stages).unwrap();
    assert_eq!(graph.topological_sort().unwrap(), vec![1, 0, 2]);
}

#[test]
fn stage_graph_rejects_unknown_stage() {
    let stages = vec![stage("Build", &[]), stage("Test", &["Compile"])];
    let err = build_stage_graph(&stages).unwrap_err();
    assert_eq!(err, "Stage 'Test' depends on unknown stage 'Compile'");
}

#[test]
fn job_graph_rejects_unknown_job() {
    let jobs = vec![job("A", &["B"])];
    assert_eq!(build_job_graph(&jobs).unwrap_err(), "Job 'A' depends on unknown job 'B'");
    let jobs = vec![job("A", &[]), job("B", &["A"])];
    let levels = build_job_graph(&jobs).unwrap().get_execution_levels().unwrap();
    assert_eq!(levels, vec![vec![0], vec![1]]);
}

#[test]
fn a_repeated_edge_changes_no_level() {
    let mut graph = DependencyGraph::new(vec!["A", "B", "C", "D"]);
    graph.add_dependency(0, 2);
    graph.add_dependency(1, 3);
    let before = graph.get_execution_levels().unwrap();
    graph.add_dependency(0, 2);
    assert_eq!(graph.get_execution_levels().unwrap(), before);
    assert_eq!(before, vec![vec![0, 1], vec![2, 3]]);
    assert_eq!(graph.get_node(2), Some(&"C"));
}

#[test]
fn each_later_level_depends_on_the_one_before() {
    let mut graph = DependencyGraph::new(vec!["A", "B", "C", "D", "E"]);
    graph.add_dependency(0, 1);
    graph.add_dependency(1, 2);
    graph.add_dependency(0, 3);
    graph.add_dependency(3, 4);
    graph.add_dependency(1, 4);
    let levels = graph.get_execution_levels().unwrap();
    assert_eq!(levels, vec![vec![0], vec![1, 3], vec![2, 4]]);
    let edges = [(0, 1), (1, 2), (0, 3), (3, 4), (1, 4)];
    for k in 1..levels.len() {
        for v in &levels[k] {
            assert!(edges.iter().any(|(u, w)| w == v && levels[k - 1].contains(u)));
        }
    }
}
