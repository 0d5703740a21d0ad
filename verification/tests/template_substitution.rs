use pipeline_service::lexer::ExpressionType;
use pipeline_service::substitution::substitute_macros;
use pipeline_service::expansion::YamlNode;
use pipeline_service::models::{
    BoolOrExpression, DownloadSource, DownloadStep, Job, Pipeline, ScriptStep, Stage, Step, StepAction, TaskStep,
    TemplateStep, Variable,
};
use pipeline_service::parse_error::ParseError;
use pipeline_service::template::TemplateEngine;
use std::path::PathBuf;

const OS: &str = "${{ parameters.os }}";

/// Replaces the one parameter reference with the scope's value; a text that
/// holds `fail` is refused.
fn substitute(scope: &String, text: &String) -> Result<String, ParseError> {
    if text.contains("fail") {
        return Err(ParseError::new(&format!("cannot substitute '{}'", text), 0, 0));
    }
    Ok(text.replace(OS, scope))
}

fn engine() -> TemplateEngine {
    TemplateEngine::new(PathBuf::from("/tmp"))
}

fn script_step(script: &str) -> Step {
    Step {
        name: Some("s1".to_string()),
        display_name: Some(format!("Run on {}", OS)),
        condition: None,
        continue_on_error: BoolOrExpression::default(),
        enabled: true,
        timeout_in_minutes: Some(5),
        retry_count_on_task_failure: None,
        env: vec![("OS".to_string(), OS.to_string())],
        action: StepAction::Script(ScriptStep {
            script: script.to_string(),
            working_directory: Some(format!("/src/{}", OS)),
            fail_on_stderr: true,
        }),
    }
}

#[test]
fn test_substitute_variable_params() {
    let e = engine();
    let scope = "linux".to_string();
    let v = Variable::KeyValue { name: format!("target_{}", OS), value: OS.to_string(), readonly: true };
    match e.substitute_variable_params(v, &scope, &substitute).unwrap() {
        Variable::KeyValue { name, value, readonly } => {
            assert_eq!(name, "target_linux");
            assert_eq!(value, "linux");
            assert!(readonly);
        }
        other => panic!("unexpected {:?}", other),
    }
    let g = Variable::Group { group: OS.to_string() };
    match e.substitute_variable_params(g, &scope, &substitute).unwrap() {
        Variable::Group { group } => assert_eq!(group, OS),
        other => panic!("unexpected {:?}", other),
    }
}

#[test]
fn test_substitute_step_params() {
    let e = engine();
    let scope = "windows".to_string();
    let step = e.substitute_step_params(script_step(&format!("echo {}", OS)), &scope, &substitute).unwrap();
    assert_eq!(step.name, Some("s1".to_string()));
    assert_eq!(step.display_name, Some("Run on windows".to_string()));
    assert_eq!(step.condition, None);
    assert_eq!(step.timeout_in_minutes, Some(5));
    assert_eq!(step.env, vec![("OS".to_string(), "windows".to_string())]);
    match step.action {
        StepAction::Script(s) => {
            assert_eq!(s.script, "echo windows");
            assert_eq!(s.working_directory, Some("/src/windows".to_string()));
            assert!(s.fail_on_stderr);
        }
        other => panic!("unexpected {:?}", other),
    }
}

#[test]
fn test_substitute_task_inputs_merge_equal_keys() {
    let e = engine();
    let scope = "x".to_string();
    let action = StepAction::Task(TaskStep {
        task: format!("Build@{}", OS),
        inputs: vec![
            (OS.to_string(), "first".to_string()),
            ("x".to_string(), "second".to_string()),
            ("y".to_string(), OS.to_string()),
        ],
    });
    match e.substitute_step_action_params(action, &scope, &substitute).unwrap() {
        StepAction::Task(t) => {
            assert_eq!(t.task, "Build@x");
            // Both first keys become "x": the later value wins, in the first place.
            assert_eq!(
                t.inputs,
                vec![("x".to_string(), "second".to_string()), ("y".to_string(), "x".to_string())]
            );
        }
        other => panic!("unexpected {:?}", other),
    }
}

#[test]
fn test_substitute_template_step_arguments() {
    let e = engine();
    let scope = "arm".to_string();
    let action = StepAction::Template(TemplateStep {
        template: format!("steps/{}.yml", OS),
        parameters: vec![
            ("arch".to_string(), YamlNode::String(OS.to_string())),
            ("count".to_string(), YamlNode::Number("3".to_string())),
            (OS.to_string(), YamlNode::Bool(true)),
        ],
    });
    match e.substitute_step_action_params(action, &scope, &substitute).unwrap() {
        StepAction::Template(t) => {
            assert_eq!(t.template, "steps/arm.yml");
            assert_eq!(
                t.parameters,
                vec![
                    ("arch".to_string(), YamlNode::String("arm".to_string())),
                    ("count".to_string(), YamlNode::Number("3".to_string())),
                    (OS.to_string(), YamlNode::Bool(true)),
                ]
            );
        }
        other => panic!("unexpected {:?}", other),
    }
}

#[test]
fn test_substitute_other_action_kept() {
    let e = engine();
    let scope = "arm".to_string();
    let action = StepAction::Download(DownloadStep {
        download: DownloadSource::Pipeline("p".to_string()),
        artifact: Some(OS.to_string()),
        patterns: None,
        path: None,
    });
    match e.substitute_step_action_params(action, &scope, &substitute).unwrap() {
        StepAction::Download(d) => assert_eq!(d.artifact, Some(OS.to_string())),
        other => panic!("unexpected {:?}", other),
    }
}

#[test]
fn test_substitute_job_params() {
    let e = engine();
    let scope = "mac".to_string();
    let job = Job {
        job: Some(format!("build_{}", OS)),
        display_name: Some(format!("Build {}", OS)),
        condition: Some(format!("eq(variables.os, '{}')", OS)),
        timeout_in_minutes: Some(30),
        variables: vec![Variable::KeyValue { name: "v".to_string(), value: OS.to_string(), readonly: false }],
        steps: vec![script_step("make"), script_step(&format!("make {}", OS))],
        ..Default::default()
    };
    let job = e.substitute_job_params(job, &scope, &substitute).unwrap();
    assert_eq!(job.job, Some("build_mac".to_string()));
    assert_eq!(job.display_name, Some("Build mac".to_string()));
    assert_eq!(job.condition, Some("eq(variables.os, 'mac')".to_string()));
    assert_eq!(job.timeout_in_minutes, Some(30));
    assert_eq!(job.steps.len(), 2);
    match &job.steps[1].action {
        StepAction::Script(s) => assert_eq!(s.script, "make mac"),
        other => panic!("unexpected {:?}", other),
    }
    match &job.variables[0] {
        Variable::KeyValue { value, .. } => assert_eq!(value, "mac"),
        other => panic!("unexpected {:?}", other),
    }
}

#[test]
fn test_substitute_first_failure_returned() {
    let e = engine();
    let scope = "mac".to_string();
    let job = Job {
        job: Some("ok".to_string()),
        display_name: Some("fail here".to_string()),
        steps: vec![script_step("fail later")],
        ..Default::default()
    };
    let err = e.substitute_job_params(job, &scope, &substitute).unwrap_err();
    assert_eq!(err.message, "cannot substitute 'fail here'");
}

#[test]
fn test_substitute_template_parameters() {
    let e = engine();
    let scope = "linux".to_string();
    let stage = Stage {
        stage: Some(format!("deploy_{}", OS)),
        jobs: vec![Job { job: Some(OS.to_string()), ..Default::default() }],
        ..Default::default()
    };
    let pipeline = Pipeline {
        name: Some(format!("ci-{}", OS)),
        variables: vec![Variable::KeyValue { name: OS.to_string(), value: "1".to_string(), readonly: false }],
        stages: vec![stage],
        steps: vec![script_step(&format!("echo {}", OS))],
        ..Default::default()
    };
    let p = e.substitute_template_parameters(pipeline, &scope, &substitute).unwrap();
    // The pipeline's own name is not among the substituted fields.
    assert_eq!(p.name, Some(format!("ci-{}", OS)));
    assert_eq!(p.stages[0].stage, Some("deploy_linux".to_string()));
    assert_eq!(p.stages[0].jobs[0].job, Some("linux".to_string()));
    match &p.variables[0] {
        Variable::KeyValue { name, .. } => assert_eq!(name, "linux"),
        other => panic!("unexpected {:?}", other),
    }
    match &p.steps[0].action {
        StepAction::Script(s) => assert_eq!(s.script, "echo linux"),
        other => panic!("unexpected {:?}", other),
    }
}

#[test]
fn test_substitute_template_parameters_stage_failure_before_steps() {
    let e = engine();
    let scope = "linux".to_string();
    let pipeline = Pipeline {
        stages: vec![Stage { display_name: Some("fail stage".to_string()), ..Default::default() }],
        steps: vec![script_step("fail step")],
        ..Default::default()
    };
    let err = e.substitute_template_parameters(pipeline, &scope, &substitute).unwrap_err();
    assert_eq!(err.message, "cannot substitute 'fail stage'");
}

#[test]
fn macros_and_expressions_are_replaced_in_order() {
    let eval = |p: &ExpressionType| match p {
        ExpressionType::Macro(n) if n == "version" => Ok("1.0.0".to_string()),
        ExpressionType::Macro(_) => Ok(String::new()),
        ExpressionType::CompileTime(e) => Ok(format!("<{}>", e)),
        ExpressionType::Runtime(e) if e == "bad" => Err("cannot evaluate".to_string()),
        ExpressionType::Runtime(e) => Ok(format!("[{}]", e)),
        ExpressionType::Text(t) => Ok(t.clone()),
    };
    assert_eq!(substitute_macros("Version: $(version)", &eval), Ok("Version: 1.0.0".to_string()));
    assert_eq!(substitute_macros("$(undefined)", &eval), Ok(String::new()));
    assert_eq!(substitute_macros("a ${{ x }} b $[ y ] c", &eval), Ok("a <x> b [y] c".to_string()));
    assert_eq!(substitute_macros("$[bad] $(version)", &eval), Err("cannot evaluate".to_string()));
    assert_eq!(substitute_macros("echo ${HOME}", &eval), Ok("echo ${HOME}".to_string()));
}
