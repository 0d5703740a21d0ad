use pipeline_service::execution::{
    decide_start, StartDecision,
    continue_after, fold_job_into_stage, fold_matrix_instance, fold_stage_into_pipeline,
    job_result_key, job_status_to_string, parse_logging_commands, plan_step_action,
    shell_step_status, should_always_run, stage_dependency_met, status_to_string, JobProgress,
    StepPlan,
};
use pipeline_service::models::{
    BoolOrExpression, CheckoutNone, CheckoutSource, CheckoutStep, JobStatus, ScriptStep,
    StageStatus, Step, StepAction, StepStatus, SubmoduleOption,
};
use std::collections::HashMap;

fn step(condition: Option<&str>) -> Step {
    Step {
        name: None,
        display_name: None,
        condition: condition.map(|c| c.to_string()),
        continue_on_error: BoolOrExpression::Bool(false),
        enabled: true,
        timeout_in_minutes: None,
        retry_count_on_task_failure: None,
        env: Vec::new(),
        action: StepAction::Script(ScriptStep {
            script: "echo test".to_string(),
            working_directory: None,
            fail_on_stderr: false,
        }),
    }
}

#[test]
fn test_parse_logging_commands() {
    let output = r#"
Hello
##vso[task.setvariable variable=version]1.0.0
##vso[task.setvariable variable=output;isoutput=true]result
World
"#;

    let commands = parse_logging_commands(output);
    let outputs: HashMap<String, String> = commands
        .iter()
        .filter(|c| c.is_output)
        .map(|c| (c.name.clone(), c.value.clone()))
        .collect();
    let variables: HashMap<String, String> = commands
        .iter()
        .filter(|c| !c.is_secret)
        .map(|c| (c.name.clone(), c.value.clone()))
        .collect();

    assert_eq!(outputs.get("output"), Some(&"result".to_string()));
    assert_eq!(variables.get("version"), Some(&"1.0.0".to_string()));
}

#[test]
fn test_should_always_run() {
    let step_with_always = step(Some("always()"));
    let step_without = step(None);
    let step_other = step(Some("succeeded()"));
    assert!(should_always_run(&step_with_always));
    assert!(!should_always_run(&step_without));
    assert!(!should_always_run(&step_other));
}

#[test]
fn failure_stops_later_steps() {
    let mut p = JobProgress::new();
    p.record(StepStatus::Succeeded, false);
    assert!(p.runs_step(false));
    p.record(StepStatus::Failed, false);
    assert_eq!(p.status, JobStatus::Failed);
    assert!(!p.runs_step(false));
    assert!(p.runs_step(true));
    let mut q = JobProgress::new();
    q.record(StepStatus::Failed, true);
    assert_eq!(q.status, JobStatus::SucceededWithIssues);
    assert!(q.runs_step(false));
}

#[test]
fn statuses_roll_up() {
    let mut s = StageStatus::Succeeded;
    s = fold_job_into_stage(s, JobStatus::SucceededWithIssues);
    assert_eq!(s, StageStatus::SucceededWithIssues);
    s = fold_job_into_stage(s, JobStatus::Failed);
    assert_eq!(s, StageStatus::Failed);
    s = fold_job_into_stage(s, JobStatus::Succeeded);
    assert_eq!(s, StageStatus::Failed);
    assert!(!continue_after(s, false));
    assert!(continue_after(s, true));
    assert_eq!(fold_matrix_instance(JobStatus::Succeeded, JobStatus::Failed, false), (JobStatus::Failed, false));
    assert_eq!(fold_stage_into_pipeline(true, StageStatus::Failed, false), (false, false));
    assert_eq!(fold_stage_into_pipeline(true, StageStatus::Skipped, false), (true, true));
}

#[test]
fn status_names() {
    assert_eq!(status_to_string(&StageStatus::Running), "InProgress");
    assert_eq!(job_status_to_string(&JobStatus::SucceededWithIssues), "SucceededWithIssues");
    assert!(stage_dependency_met(&StageStatus::SucceededWithIssues));
    assert!(!stage_dependency_met(&StageStatus::Skipped));
    assert_eq!(job_result_key(Some("Build"), "Compile"), "Build.Compile");
    assert_eq!(job_result_key(None, "Compile"), "Compile");
}

#[test]
fn step_plans() {
    match plan_step_action(&step(None).action, false) {
        StepPlan::Shell { program, flag, script, .. } => {
            assert_eq!(program, "sh");
            assert_eq!(flag, "-c");
            assert_eq!(script, "echo test");
        }
        other => panic!("unexpected {:?}", other),
    }
    let checkout = StepAction::Checkout(CheckoutStep {
        checkout: CheckoutSource::Disabled(CheckoutNone::Disabled),
        clean: false,
        fetch_depth: None,
        fetch_tags: None,
        lfs: false,
        submodules: SubmoduleOption::False,
        path: None,
        persistent_credentials: None,
    });
    match plan_step_action(&checkout, false) {
        StepPlan::Finished { status, output, exit_code } => {
            assert_eq!(status, StepStatus::Succeeded);
            assert_eq!(output, "Checkout: Using existing working directory");
            assert_eq!(exit_code, Some(0));
        }
        other => panic!("unexpected {:?}", other),
    }
    assert_eq!(shell_step_status(true, true, false), StepStatus::Failed);
    assert_eq!(shell_step_status(true, false, false), StepStatus::Succeeded);
    assert_eq!(shell_step_status(false, false, true), StepStatus::Failed);
}


#[test]
fn stages_and_jobs_start_by_dependencies_then_condition() {
    use_decisions();
}

fn use_decisions() {
    let eval = |c: &String| match c.as_str() {
        "yes" => Ok(true),
        "no" => Ok(false),
        _ => Err("cannot evaluate".to_string()),
    };
    assert_eq!(decide_start(true, false, &Some("yes".to_string()), &eval), StartDecision::Skip);
    assert_eq!(decide_start(true, true, &None, &eval), StartDecision::Run);
    assert_eq!(decide_start(false, false, &Some("no".to_string()), &eval), StartDecision::Skip);
    assert_eq!(decide_start(false, false, &Some("?".to_string()), &eval), StartDecision::Fail);
    assert_eq!(decide_start(true, true, &Some("yes".to_string()), &eval), StartDecision::Run);
}
