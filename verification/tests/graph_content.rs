use pipeline_service::graph::ExecutionGraph;
use pipeline_service::models::{
    BoolOrExpression, DependsOn, Job, Pipeline, Pool, ScriptStep, Stage, Step, StepAction, TaskStep,
};
use pipeline_service::users::UserService;

fn script(text: &str) -> Step {
    Step {
        name: Some("s".to_string()),
        display_name: None,
        condition: Some("succeeded()".to_string()),
        continue_on_error: BoolOrExpression::default(),
        enabled: true,
        timeout_in_minutes: Some(5),
        retry_count_on_task_failure: None,
        env: vec![("A".to_string(), "1".to_string())],
        action: StepAction::Script(ScriptStep {
            script: text.to_string(),
            working_directory: None,
            fail_on_stderr: false,
        }),
    }
}

fn task(name: &str) -> Step {
    Step {
        name: None,
        display_name: None,
        condition: None,
        continue_on_error: BoolOrExpression::default(),
        enabled: true,
        timeout_in_minutes: None,
        retry_count_on_task_failure: None,
        env: vec![],
        action: StepAction::Task(TaskStep {
            task: name.to_string(),
            inputs: vec![("script".to_string(), "echo".to_string())],
        }),
    }
}

fn script_text(s: &Step) -> String {
    match &s.action {
        StepAction::Script(x) => x.script.clone(),
        _ => panic!("not a script"),
    }
}

#[test]
fn steps_only_pipeline_runs_them_in_default_job() {
    let pipeline = Pipeline {
        steps: vec![script("echo one"), task("Bash@3")],
        pool: Some(Pool::Name("local".to_string())),
        ..Default::default()
    };
    let g = ExecutionGraph::from_pipeline(&pipeline).unwrap();
    assert_eq!(g.stages.len(), 1);
    assert_eq!(g.stages[0].stage.stage.as_deref(), Some("__default"));
    assert_eq!(g.stages[0].jobs.len(), 1);
    let job = &g.stages[0].jobs[0].job;
    assert_eq!(job.job.as_deref(), Some("__default"));
    assert_eq!(job.steps.len(), 2);
    assert_eq!(script_text(&job.steps[0]), "echo one");
    assert_eq!(job.steps[0].env, vec![("A".to_string(), "1".to_string())]);
    assert_eq!(job.steps[0].condition.as_deref(), Some("succeeded()"));
    assert_eq!(job.steps[0].timeout_in_minutes, Some(5));
    match &job.steps[1].action {
        StepAction::Task(t) => {
            assert_eq!(t.task, "Bash@3");
            assert_eq!(t.inputs, vec![("script".to_string(), "echo".to_string())]);
        },
        _ => panic!("not a task"),
    }
    assert!(matches!(&job.pool, Some(Pool::Name(n)) if n == "local"));
}

#[test]
fn job_nodes_keep_their_steps() {
    let job = Job {
        job: Some("Build".to_string()),
        depends_on: DependsOn::Nothing,
        condition: Some("always()".to_string()),
        steps: vec![script("make"), script("make test")],
        timeout_in_minutes: Some(30),
        ..Default::default()
    };
    let stage = Stage { stage: Some("CI".to_string()), jobs: vec![job], ..Default::default() };
    let pipeline = Pipeline { stages: vec![stage], ..Default::default() };
    let g = ExecutionGraph::from_pipeline(&pipeline).unwrap();
    let node = &g.stages[0].jobs[0].job;
    assert_eq!(node.steps.len(), 2);
    assert_eq!(script_text(&node.steps[1]), "make test");
    assert_eq!(node.condition.as_deref(), Some("always()"));
    assert_eq!(node.timeout_in_minutes, Some(30));
    assert_eq!(g.stages[0].stage.jobs[0].steps.len(), 2);
}

#[test]
fn jobs_pipeline_keeps_jobs_in_default_stage() {
    let job = Job { job: Some("A".to_string()), steps: vec![script("echo a")], ..Default::default() };
    let pipeline = Pipeline { jobs: vec![job], ..Default::default() };
    let g = ExecutionGraph::from_pipeline(&pipeline).unwrap();
    assert_eq!(g.stages[0].stage.stage.as_deref(), Some("__default"));
    assert_eq!(script_text(&g.stages[0].jobs[0].job.steps[0]), "echo a");
}

#[test]
fn cloned_job_keeps_everything() {
    let job = Job { job: Some("A".to_string()), steps: vec![script("echo a")], ..Default::default() };
    let copy = job.clone();
    assert_eq!(copy.steps.len(), 1);
    assert_eq!(script_text(&copy.steps[0]), "echo a");
}

#[test]
fn listing_after_creates_and_deletes_counts_survivors() {
    let mut svc = UserService::new();
    for i in 0..4 {
        svc.create_user(format!("user{}", i), format!("u{}@example.com", i)).unwrap();
    }
    svc.delete_user(2).unwrap();
    svc.delete_user(4).unwrap();
    assert!(svc.delete_user(2).is_err());
    let users = svc.list_users();
    assert_eq!(users.len(), 2);
    let mut ids: Vec<u64> = users.iter().map(|u| u.id).collect();
    ids.sort();
    assert_eq!(ids, vec![1, 3]);
}
