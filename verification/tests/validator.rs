use pipeline_service::models::{
    BoolOrExpression, DependsOn, Job, Pipeline, ScriptStep, Stage, Step, StepAction,
};
use pipeline_service::validator::{detect_cycles, normalize_pipeline, PipelineValidator};

fn script(text: &str) -> Step {
    Step {
        name: None,
        display_name: None,
        condition: None,
        continue_on_error: BoolOrExpression::default(),
        enabled: true,
        timeout_in_minutes: None,
        retry_count_on_task_failure: None,
        env: Vec::new(),
        action: StepAction::Script(ScriptStep {
            script: text.to_string(),
            working_directory: None,
            fail_on_stderr: false,
        }),
    }
}

fn job(name: &str, depends_on: DependsOn, steps: Vec<Step>) -> Job {
    Job {
        job: Some(name.to_string()),
        depends_on,
        steps,
        ..Default::default()
    }
}

fn stage(name: &str, depends_on: DependsOn, jobs: Vec<Job>) -> Stage {
    Stage {
        stage: Some(name.to_string()),
        depends_on,
        jobs,
        ..Default::default()
    }
}

#[test]
fn test_normalize_steps_only() {
    let pipeline = Pipeline {
        steps: vec![script("echo Hello")],
        ..Default::default()
    };
    let normalized = normalize_pipeline(pipeline);

    assert_eq!(normalized.stages.len(), 1);
    assert_eq!(normalized.stages[0].jobs.len(), 1);
    assert_eq!(normalized.stages[0].jobs[0].steps.len(), 1);
}

#[test]
fn test_validate_circular_dependency() {
    let pipeline = Pipeline {
        stages: vec![
            stage(
                "A",
                DependsOn::Single("C".to_string()),
                vec![job("J1", DependsOn::Default, vec![script("echo A")])],
            ),
            stage(
                "B",
                DependsOn::Single("A".to_string()),
                vec![job("J2", DependsOn::Default, vec![script("echo B")])],
            ),
            stage(
                "C",
                DependsOn::Single("B".to_string()),
                vec![job("J3", DependsOn::Default, vec![script("echo C")])],
            ),
        ],
        ..Default::default()
    };
    let result = PipelineValidator::validate(&pipeline);
    assert!(result.is_err());
    let errors = result.unwrap_err();
    assert!(errors.iter().any(|e| e.message.contains("circular")));
}

#[test]
fn validator_reports_every_problem_in_order() {
    let empty = PipelineValidator::validate(&Pipeline::default()).unwrap_err();
    assert_eq!(empty.len(), 1);
    assert_eq!(empty[0].message, "pipeline must have stages, jobs, steps, or extends");
    assert_eq!(empty[0].path, "pipeline");

    let pipeline = Pipeline {
        stages: vec![
            stage("Build", DependsOn::Default, vec![]),
            stage(
                "Test",
                DependsOn::Single("Missing".to_string()),
                vec![Job::default()],
            ),
        ],
        ..Default::default()
    };
    let errors = PipelineValidator::validate(&pipeline).unwrap_err();
    let messages: Vec<(&str, &str)> = errors
        .iter()
        .map(|e| (e.message.as_str(), e.path.as_str()))
        .collect();
    assert_eq!(
        messages,
        vec![
            ("stage must have jobs or reference a template", "stages[0]"),
            ("job must have 'job:', 'deployment:', or 'template:'", "stages[1].jobs[0]"),
            ("job must have steps", "stages[1].jobs[0]"),
            ("stage 'Test' depends on unknown stage 'Missing'", "stages.Test.dependsOn"),
        ]
    );
    assert_eq!(
        errors[3].suggestion.as_deref(),
        Some("available stages: Build, Test")
    );
    assert_eq!(
        errors[0].suggestion.as_deref(),
        Some("add 'jobs:' or 'template:' to the stage")
    );
}

#[test]
fn validator_checks_top_level_jobs() {
    let pipeline = Pipeline {
        jobs: vec![
            job("A", DependsOn::Single("B".to_string()), vec![script("a")]),
            job("B", DependsOn::Single("A".to_string()), vec![script("b")]),
            job("C", DependsOn::Single("Nope".to_string()), vec![script("c")]),
        ],
        ..Default::default()
    };
    let errors = PipelineValidator::validate(&pipeline).unwrap_err();
    assert_eq!(errors.len(), 2);
    assert_eq!(errors[0].message, "job 'C' depends on unknown job 'Nope'");
    assert_eq!(errors[0].path, "jobs.C.dependsOn");
    assert_eq!(errors[0].suggestion.as_deref(), Some("available jobs: A, B, C"));
    assert_eq!(errors[1].message, "circular dependency detected: A -> B -> A");
    assert_eq!(errors[1].path, "jobs");

    let ok = Pipeline {
        jobs: vec![job("A", DependsOn::Default, vec![script("a")])],
        ..Default::default()
    };
    assert!(PipelineValidator::validate(&ok).is_ok());
}

#[test]
fn normalize_wraps_jobs_and_keeps_stages() {
    let pipeline = Pipeline {
        jobs: vec![job("A", DependsOn::Default, vec![script("a")])],
        ..Default::default()
    };
    let normalized = normalize_pipeline(pipeline);
    assert!(normalized.jobs.is_empty());
    assert_eq!(normalized.stages.len(), 1);
    assert_eq!(normalized.stages[0].stage.as_deref(), Some("Build"));
    assert_eq!(normalized.stages[0].jobs[0].job.as_deref(), Some("A"));

    let steps_only = normalize_pipeline(Pipeline {
        steps: vec![script("x")],
        ..Default::default()
    });
    assert!(steps_only.steps.is_empty());
    assert_eq!(steps_only.stages[0].jobs[0].job.as_deref(), Some("Job"));

    let staged = normalize_pipeline(Pipeline {
        stages: vec![stage("S", DependsOn::Default, vec![])],
        steps: vec![script("x")],
        ..Default::default()
    });
    assert_eq!(staged.stages.len(), 1);
    assert_eq!(staged.steps.len(), 1);
}

#[test]
fn the_cycle_is_reported_in_search_order() {
    let names: Vec<String> = vec!["A".to_string(), "B".to_string(), "C".to_string()];
    let deps = vec![vec!["C".to_string()], vec!["A".to_string()], vec!["B".to_string()]];
    assert_eq!(
        detect_cycles(&names, &deps),
        Err(vec!["A".to_string(), "C".to_string(), "B".to_string(), "A".to_string()])
    );
    let acyclic = vec![vec!["B".to_string()], vec!["C".to_string()], vec![]];
    assert_eq!(detect_cycles(&names, &acyclic), Ok(()));
}
