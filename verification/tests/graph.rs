use pipeline_service::graph::{ExecutionGraph, GraphError, GraphErrorKind};
use pipeline_service::models::{
    BoolOrExpression, DependsOn, Job, Pipeline, ScriptStep, Stage, Step, StepAction,
};

fn make_pipeline_with_stages(stages: Vec<Stage>) -> Pipeline {
    Pipeline {
        stages,
        ..Default::default()
    }
}

fn make_stage(name: &str, depends_on: DependsOn) -> Stage {
    Stage {
        stage: Some(name.to_string()),
        depends_on,
        jobs: vec![make_job("Job1", DependsOn::Nothing)],
        ..Default::default()
    }
}

fn make_job(name: &str, depends_on: DependsOn) -> Job {
    Job {
        job: Some(name.to_string()),
        depends_on,
        continue_on_error: BoolOrExpression::default(),
        ..Default::default()
    }
}

#[test]
fn test_simple_linear_stages() {
    let pipeline = make_pipeline_with_stages(vec![
        make_stage("Build", DependsOn::Nothing),
        make_stage("Test", DependsOn::Default),
        make_stage("Deploy", DependsOn::Default),
    ]);

    let graph = ExecutionGraph::from_pipeline(&pipeline).unwrap();

    assert_eq!(graph.stages.len(), 3);
    assert!(graph.stages[0].dependencies.is_empty());
    assert_eq!(graph.stages[1].dependencies, vec!["Build"]);
    assert_eq!(graph.stages[2].dependencies, vec!["Test"]);

    let order: Vec<_> = graph.topological_order();
    assert_eq!(order.len(), 3);
    assert_eq!(order[0].stage.stage, Some("Build".to_string()));
    assert_eq!(order[1].stage.stage, Some("Test".to_string()));
    assert_eq!(order[2].stage.stage, Some("Deploy".to_string()));
}

#[test]
fn test_parallel_stages() {
    let pipeline = make_pipeline_with_stages(vec![
        make_stage("Build", DependsOn::Nothing),
        make_stage("UnitTest", DependsOn::Single("Build".to_string())),
        make_stage("IntegrationTest", DependsOn::Single("Build".to_string())),
        make_stage(
            "Deploy",
            DependsOn::Multiple(vec!["UnitTest".to_string(), "IntegrationTest".to_string()]),
        ),
    ]);

    let graph = ExecutionGraph::from_pipeline(&pipeline).unwrap();

    let parallel = graph.parallel_stages();
    assert_eq!(parallel.len(), 3);

    assert_eq!(parallel[0].len(), 1);
    assert_eq!(parallel[0][0].stage.stage, Some("Build".to_string()));

    assert_eq!(parallel[1].len(), 2);

    assert_eq!(parallel[2].len(), 1);
    assert_eq!(parallel[2][0].stage.stage, Some("Deploy".to_string()));
}

#[test]
fn test_cycle_detection_stages() {
    let pipeline = make_pipeline_with_stages(vec![
        make_stage("A", DependsOn::Single("C".to_string())),
        make_stage("B", DependsOn::Single("A".to_string())),
        make_stage("C", DependsOn::Single("B".to_string())),
    ]);

    let result = ExecutionGraph::from_pipeline(&pipeline);
    assert!(result.is_err());
    let err = result.unwrap_err();
    assert_eq!(err.kind, GraphErrorKind::CyclicDependency);
}

#[test]
fn test_unknown_dependency() {
    let pipeline = make_pipeline_with_stages(vec![
        make_stage("Build", DependsOn::Nothing),
        make_stage("Test", DependsOn::Single("Unknown".to_string())),
    ]);

    let result = ExecutionGraph::from_pipeline(&pipeline);
    assert!(result.is_err());
    let err = result.unwrap_err();
    assert_eq!(err.kind, GraphErrorKind::UnknownDependency);
}

#[test]
fn test_jobs_within_stage() {
    let mut stage = make_stage("Build", DependsOn::Nothing);
    stage.jobs = vec![
        make_job("Compile", DependsOn::Nothing),
        make_job("Lint", DependsOn::Nothing),
        make_job(
            "Package",
            DependsOn::Multiple(vec!["Compile".to_string(), "Lint".to_string()]),
        ),
    ];

    let pipeline = make_pipeline_with_stages(vec![stage]);
    let graph = ExecutionGraph::from_pipeline(&pipeline).unwrap();

    let stage_node = &graph.stages[0];
    let parallel_jobs = graph.parallel_jobs(stage_node);

    assert_eq!(parallel_jobs[0].len(), 2);

    assert_eq!(parallel_jobs[1].len(), 1);
    assert_eq!(parallel_jobs[1][0].job.identifier(), Some("Package"));
}

#[test]
fn test_job_cycle_detection() {
    let mut stage = make_stage("Build", DependsOn::Nothing);
    stage.jobs = vec![
        make_job("A", DependsOn::Single("C".to_string())),
        make_job("B", DependsOn::Single("A".to_string())),
        make_job("C", DependsOn::Single("B".to_string())),
    ];

    let pipeline = make_pipeline_with_stages(vec![stage]);
    let result = ExecutionGraph::from_pipeline(&pipeline);

    assert!(result.is_err());
    let err = result.unwrap_err();
    assert_eq!(err.kind, GraphErrorKind::CyclicDependency);
}

#[test]
fn test_normalize_steps_only_pipeline() {
    let pipeline = Pipeline {
        steps: vec![Step {
            name: Some("echo".to_string()),
            display_name: Some("Echo Hello".to_string()),
            condition: None,
            continue_on_error: BoolOrExpression::default(),
            enabled: true,
            timeout_in_minutes: None,
            retry_count_on_task_failure: None,
            env: Vec::new(),
            action: StepAction::Script(ScriptStep {
                script: "echo hello".to_string(),
                working_directory: None,
                fail_on_stderr: false,
            }),
        }],
        ..Default::default()
    };

    let graph = ExecutionGraph::from_pipeline(&pipeline).unwrap();

    assert_eq!(graph.stages.len(), 1);
    assert_eq!(graph.stages[0].stage.stage, Some("__default".to_string()));
    assert_eq!(graph.stages[0].jobs.len(), 1);
    assert_eq!(graph.stages[0].jobs[0].job.steps.len(), 1);
}

#[test]
fn test_normalize_jobs_only_pipeline() {
    let pipeline = Pipeline {
        jobs: vec![
            make_job("Build", DependsOn::Nothing),
            make_job("Test", DependsOn::Default),
        ],
        ..Default::default()
    };

    let graph = ExecutionGraph::from_pipeline(&pipeline).unwrap();

    assert_eq!(graph.stages.len(), 1);
    assert_eq!(graph.stages[0].stage.stage, Some("__default".to_string()));
    assert_eq!(graph.stages[0].jobs.len(), 2);
}

#[test]
fn test_explicit_none_dependency() {
    let pipeline = make_pipeline_with_stages(vec![
        make_stage("Build", DependsOn::Nothing),
        make_stage("Deploy", DependsOn::Nothing),
    ]);

    let graph = ExecutionGraph::from_pipeline(&pipeline).unwrap();

    let parallel = graph.parallel_stages();
    assert_eq!(parallel.len(), 1);
    assert_eq!(parallel[0].len(), 2);
}

#[test]
fn graph_error_messages_name_the_problem() {
    let pipeline = make_pipeline_with_stages(vec![
        make_stage("Build", DependsOn::Nothing),
        make_stage("Test", DependsOn::Single("Unknown".to_string())),
    ]);
    let err = ExecutionGraph::from_pipeline(&pipeline).unwrap_err();
    assert_eq!(err.message, "stage 'Test' depends on unknown stage 'Unknown'");
    assert_eq!(err.to_display_string(), "graph error: stage 'Test' depends on unknown stage 'Unknown'");

    let pipeline = make_pipeline_with_stages(vec![
        make_stage("A", DependsOn::Single("C".to_string())),
        make_stage("B", DependsOn::Single("A".to_string())),
        make_stage("C", DependsOn::Single("B".to_string())),
    ]);
    let err = ExecutionGraph::from_pipeline(&pipeline).unwrap_err();
    assert_eq!(err.message, "circular dependency detected in stages: A -> C -> B -> A");

    let mut stage = make_stage("Build", DependsOn::Nothing);
    stage.jobs = vec![
        make_job("A", DependsOn::Single("B".to_string())),
        make_job("B", DependsOn::Single("A".to_string())),
    ];
    let err = ExecutionGraph::from_pipeline(&make_pipeline_with_stages(vec![stage])).unwrap_err();
    assert_eq!(err.message, "circular dependency detected in jobs of stage 'Build': A -> B -> A");

    let mut stage = make_stage("Build", DependsOn::Nothing);
    stage.jobs = vec![make_job("A", DependsOn::Single("Missing".to_string()))];
    let err = ExecutionGraph::from_pipeline(&make_pipeline_with_stages(vec![stage])).unwrap_err();
    assert_eq!(err.kind, GraphErrorKind::UnknownDependency);
    assert_eq!(err.message, "job 'A' depends on unknown job 'Missing'");

    let e = GraphError::invalid_structure("bad");
    assert_eq!(e.kind, GraphErrorKind::InvalidStructure);
}

#[test]
fn graph_lookups_and_empty_pipeline() {
    let pipeline = make_pipeline_with_stages(vec![
        make_stage("Build", DependsOn::Nothing),
        make_stage("Test", DependsOn::Default),
    ]);
    let graph = ExecutionGraph::from_pipeline(&pipeline).unwrap();
    assert_eq!(graph.get_stage("Test").unwrap().stage.stage, Some("Test".to_string()));
    assert!(graph.get_stage("Deploy").is_none());
    let node = graph.get_stage("Build").unwrap();
    assert_eq!(node.get_job("Job1").unwrap().job.identifier(), Some("Job1"));
    assert!(node.get_job("Other").is_none());
    let jobs = graph.jobs_topological_order(node);
    assert_eq!(jobs.len(), 1);
    assert!(graph.validate().is_ok());

    let empty = ExecutionGraph::from_pipeline(&Pipeline::default()).unwrap();
    assert!(empty.stages.is_empty());
    assert!(empty.topological_order().is_empty());
    assert!(empty.parallel_stages().is_empty());
}
