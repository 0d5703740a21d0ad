use pipeline_service::models::{
    ExecutionContext, Job, JobResult, JobStatus, Stage, StageResult, StageStatus, StepResult,
    StepStatus,
};
use pipeline_service::runtime::RuntimeContext;
use std::collections::HashMap;
use std::time::Duration;

fn stage_result(name: &str, status: StageStatus) -> StageResult {
    StageResult {
        stage_name: name.to_string(),
        display_name: None,
        status,
        jobs: Vec::new(),
        duration: Duration::from_secs(10),
    }
}

fn job_result(name: &str, status: JobStatus) -> JobResult {
    JobResult {
        job_name: name.to_string(),
        display_name: None,
        status,
        steps: Vec::new(),
        duration: Duration::from_secs(1),
        outputs: HashMap::new(),
    }
}

fn step_result(status: StepStatus) -> StepResult {
    StepResult {
        step_name: None,
        display_name: None,
        status,
        output: String::new(),
        error: None,
        duration: Duration::from_secs(1),
        exit_code: None,
        outputs: HashMap::new(),
    }
}

#[test]
fn test_runtime_context_creation() {
    let base = ExecutionContext::new("test-pipeline".to_string(), "/work".to_string());
    let ctx = RuntimeContext::new(base);

    assert_eq!(ctx.base.pipeline_name, "test-pipeline");
    assert_eq!(ctx.base.working_dir, "/work");
    assert!(ctx.current_stage.is_none());
    assert!(ctx.current_job.is_none());
}

#[test]
fn test_dependencies_succeeded() {
    let base = ExecutionContext::new("test".to_string(), "/work".to_string());
    let mut ctx = RuntimeContext::new(base);

    // Add a completed stage
    ctx.stage_results
        .push(("Build".to_string(), stage_result("Build", StageStatus::Succeeded)));

    assert!(ctx.dependencies_succeeded(&["Build".to_string()], true));
    assert!(!ctx.dependencies_succeeded(&["Test".to_string()], true));
}

#[test]
fn enter_and_exit_stage_records_the_result() {
    let base = ExecutionContext::new("test".to_string(), "/work".to_string());
    let mut ctx = RuntimeContext::new(base);
    let stage = Stage {
        stage: Some("Build".to_string()),
        ..Default::default()
    };
    ctx.enter_stage(&stage);
    assert_eq!(ctx.current_stage, Some("Build".to_string()));
    ctx.exit_stage(stage_result("Build", StageStatus::Succeeded));
    assert!(ctx.current_stage.is_none());
    assert!(ctx.has_stage_result("Build"));
    assert!(!ctx.has_stage_result("Deploy"));
}

#[test]
fn failed_stage_blocks_dependents_and_later_result_replaces_it() {
    let mut ctx = RuntimeContext::new(ExecutionContext::new("p".to_string(), "/w".to_string()));
    ctx.stage_results.push(("Build".to_string(), stage_result("Build", StageStatus::Failed)));
    ctx.stage_results.push(("Lint".to_string(), stage_result("Lint", StageStatus::SucceededWithIssues)));
    assert!(!ctx.dependencies_succeeded(&["Build".to_string(), "Lint".to_string()], true));
    assert!(ctx.dependencies_succeeded(&["Lint".to_string()], true));
    ctx.stage_results.push(("Build".to_string(), stage_result("Build", StageStatus::Succeeded)));
    assert!(ctx.dependencies_succeeded(&["Build".to_string(), "Lint".to_string()], true));
    assert!(ctx.dependencies_succeeded(&[], true));
}

#[test]
fn job_results_are_keyed_by_stage() {
    let mut ctx = RuntimeContext::new(ExecutionContext::new("p".to_string(), "/w".to_string()));
    ctx.enter_stage(&Stage {
        stage: Some("Build".to_string()),
        ..Default::default()
    });
    ctx.enter_job(&Job {
        job: Some("Compile".to_string()),
        ..Default::default()
    });
    assert_eq!(ctx.current_job.as_deref(), Some("Compile"));
    ctx.exit_job(job_result("Compile", JobStatus::Succeeded));
    assert!(ctx.current_job.is_none());
    assert_eq!(ctx.job_results[0].0, "Build.Compile");
    assert!(ctx.dependencies_succeeded(&["Compile".to_string()], false));
    assert!(!ctx.dependencies_succeeded(&["Test".to_string()], false));

    // Outside a stage, jobs are keyed by their own name.
    let mut flat = RuntimeContext::new(ExecutionContext::new("p".to_string(), "/w".to_string()));
    flat.enter_job(&Job {
        deployment: Some("Deploy".to_string()),
        ..Default::default()
    });
    flat.exit_job(job_result("Deploy", JobStatus::Failed));
    assert_eq!(flat.job_results[0].0, "Deploy");
    assert!(!flat.dependencies_succeeded(&["Deploy".to_string()], false));

    // With no current job, nothing is recorded.
    flat.exit_job(job_result("Other", JobStatus::Succeeded));
    assert_eq!(flat.job_results.len(), 1);
}

#[test]
fn current_job_status_follows_steps() {
    let mut ctx = RuntimeContext::new(ExecutionContext::new("p".to_string(), "/w".to_string()));
    let s = ctx.current_job_status();
    assert!(!s.succeeded && !s.failed && !s.canceled);
    ctx.record_step_result(step_result(StepStatus::Succeeded));
    let s = ctx.current_job_status();
    assert!(s.succeeded && !s.failed);
    ctx.record_step_result(step_result(StepStatus::Failed));
    let s = ctx.current_job_status();
    assert!(!s.succeeded && s.failed);
    ctx.enter_job(&Job {
        job: Some("Next".to_string()),
        ..Default::default()
    });
    assert!(ctx.step_results.is_empty());
}
