use pipeline_service::expansion::{Evaluators, YamlNode};
use pipeline_service::models::{
    BoolOrExpression, Extends, Job, Parameter, ParameterType, Pipeline, Pool, ScriptStep, Stage, Step,
    StepAction, TemplateStep, Variable,
};
use pipeline_service::parameters::{RawTemplateContent, RawTemplateFile};
use pipeline_service::parse_error::{ParseError, ParseErrorKind};
use pipeline_service::resolution::{BaseSource, Halt, TemplateContent, TemplateFiles, TemplateHooks, TemplateSource};
use pipeline_service::template::{TemplateEngine, TemplateError, TemplateErrorKind};
use std::path::PathBuf;

// ---------------------------------------------------------------------------
// Reading YAML into the model
// ---------------------------------------------------------------------------

fn node_of(v: &serde_yaml::Value) -> YamlNode {
    match v {
        serde_yaml::Value::Null => YamlNode::Null,
        serde_yaml::Value::Bool(b) => YamlNode::Bool(*b),
        serde_yaml::Value::Number(n) => YamlNode::Number(n.to_string()),
        serde_yaml::Value::String(s) => YamlNode::String(s.clone()),
        serde_yaml::Value::Sequence(items) => YamlNode::Sequence(items.iter().map(node_of).collect()),
        serde_yaml::Value::Mapping(m) => YamlNode::Mapping(m.iter().map(|(k, v)| (node_of(k), node_of(v))).collect()),
        serde_yaml::Value::Tagged(t) => node_of(&t.value),
    }
}

fn get<'a>(n: &'a YamlNode, key: &str) -> Option<&'a YamlNode> {
    match n {
        YamlNode::Mapping(es) => es.iter().find(|(k, _)| matches!(k, YamlNode::String(s) if s == key)).map(|(_, v)| v),
        _ => None,
    }
}

fn text(n: &YamlNode) -> String {
    match n {
        YamlNode::String(s) => s.clone(),
        YamlNode::Number(t) => t.clone(),
        YamlNode::Bool(true) => "True".to_string(),
        YamlNode::Bool(false) => "False".to_string(),
        _ => String::new(),
    }
}

fn opt_text(n: &YamlNode, key: &str) -> Option<String> {
    get(n, key).map(text)
}

fn items(n: Option<&YamlNode>) -> Vec<YamlNode> {
    match n {
        Some(YamlNode::Sequence(v)) => v.clone(),
        _ => Vec::new(),
    }
}

fn pairs(n: Option<&YamlNode>) -> Vec<(String, YamlNode)> {
    match n {
        Some(YamlNode::Mapping(es)) => es.iter().map(|(k, v)| (text(k), v.clone())).collect(),
        _ => Vec::new(),
    }
}

fn read_step(n: &YamlNode) -> Result<Step, String> {
    let action = if let Some(s) = get(n, "script") {
        StepAction::Script(ScriptStep { script: text(s), working_directory: None, fail_on_stderr: false })
    } else if let Some(t) = get(n, "template") {
        StepAction::Template(TemplateStep { template: text(t), parameters: pairs(get(n, "parameters")) })
    } else {
        return Err("unknown step".to_string());
    };
    Ok(Step {
        name: opt_text(n, "name"),
        display_name: opt_text(n, "displayName"),
        condition: opt_text(n, "condition"),
        continue_on_error: BoolOrExpression::default(),
        enabled: true,
        timeout_in_minutes: None,
        retry_count_on_task_failure: None,
        env: Vec::new(),
        action,
    })
}

fn read_variable(n: &YamlNode) -> Result<Variable, String> {
    if let Some(t) = get(n, "template") {
        return Ok(Variable::Template { template: text(t), parameters: pairs(get(n, "parameters")) });
    }
    if let Some(g) = get(n, "group") {
        return Ok(Variable::Group { group: text(g) });
    }
    match (get(n, "name"), get(n, "value")) {
        (Some(k), Some(v)) => Ok(Variable::KeyValue { name: text(k), value: text(v), readonly: false }),
        _ => Err("unknown variable".to_string()),
    }
}

fn read_all<X>(n: Option<&YamlNode>, f: fn(&YamlNode) -> Result<X, String>) -> Result<Vec<X>, String> {
    items(n).iter().map(f).collect()
}

fn read_job(n: &YamlNode) -> Result<Job, String> {
    Ok(Job {
        job: opt_text(n, "job"),
        display_name: opt_text(n, "displayName"),
        template: opt_text(n, "template"),
        parameters: pairs(get(n, "parameters")),
        pool: get(n, "pool").and_then(|p| opt_text(p, "vmImage")).map(Pool::Name),
        variables: read_all(get(n, "variables"), read_variable)?,
        steps: read_all(get(n, "steps"), read_step)?,
        ..Default::default()
    })
}

fn read_stage(n: &YamlNode) -> Result<Stage, String> {
    Ok(Stage {
        stage: opt_text(n, "stage"),
        display_name: opt_text(n, "displayName"),
        template: opt_text(n, "template"),
        parameters: pairs(get(n, "parameters")),
        variables: read_all(get(n, "variables"), read_variable)?,
        jobs: read_all(get(n, "jobs"), read_job)?,
        ..Default::default()
    })
}

fn read_parameter(n: &YamlNode) -> Result<Parameter, String> {
    let name = opt_text(n, "name").ok_or("parameter without a name")?;
    let param_type = match opt_text(n, "type").as_deref() {
        Some("boolean") => ParameterType::Boolean,
        Some("number") => ParameterType::Number,
        Some("object") => ParameterType::Object,
        _ => ParameterType::String,
    };
    Ok(Parameter { name, display_name: None, param_type, default: get(n, "default").cloned(), values: None })
}

fn read_pipeline(t: &String) -> Result<Pipeline, ParseError> {
    let v: serde_yaml::Value = serde_yaml::from_str(t).map_err(|e| ParseError::new(&e.to_string(), 1, 1))?;
    let n = node_of(&v);
    let wrap = |e: String| ParseError::new(&e, 1, 1);
    Ok(Pipeline {
        variables: read_all(get(&n, "variables"), read_variable).map_err(wrap)?,
        stages: read_all(get(&n, "stages"), read_stage).map_err(wrap)?,
        jobs: read_all(get(&n, "jobs"), read_job).map_err(wrap)?,
        steps: read_all(get(&n, "steps"), read_step).map_err(wrap)?,
        parameters: read_all(get(&n, "parameters"), read_parameter).map_err(wrap)?,
        extends: get(&n, "extends").map(|e| Extends {
            template: opt_text(e, "template").unwrap_or_default(),
            parameters: pairs(get(e, "parameters")),
        }),
        ..Default::default()
    })
}

fn read_content(c: &RawTemplateContent) -> Result<TemplateContent, String> {
    Ok(match c {
        RawTemplateContent::Steps(n) => TemplateContent::Steps(read_all(Some(n), read_step)?),
        RawTemplateContent::Jobs(n) => TemplateContent::Jobs(read_all(Some(n), read_job)?),
        RawTemplateContent::Stages(n) => TemplateContent::Stages(read_all(Some(n), read_stage)?),
        RawTemplateContent::Variables(n) => TemplateContent::Variables(read_all(Some(n), read_variable)?),
        RawTemplateContent::Pipeline(t) => TemplateContent::Pipeline(Box::new(read_pipeline(t).map_err(|e| e.message)?)),
    })
}

// ---------------------------------------------------------------------------
// Expressions: parameters, loop variables, eq, ne, literals
// ---------------------------------------------------------------------------

type Scope = Vec<(String, YamlNode)>;

fn split_args(inner: &str) -> (String, String) {
    let mut depth = 0;
    for (i, ch) in inner.char_indices() {
        match ch {
            '(' => depth += 1,
            ')' => depth -= 1,
            ',' if depth == 0 => return (inner[..i].trim().to_string(), inner[i + 1..].trim().to_string()),
            _ => {},
        }
    }
    (inner.trim().to_string(), String::new())
}

fn eval(scope: &Scope, e: &str) -> Result<YamlNode, String> {
    let e = e.trim();
    if e == "true" {
        return Ok(YamlNode::Bool(true));
    }
    if e == "false" {
        return Ok(YamlNode::Bool(false));
    }
    if e.len() >= 2 && e.starts_with('\'') && e.ends_with('\'') {
        return Ok(YamlNode::String(e[1..e.len() - 1].to_string()));
    }
    for (f, want) in [("eq(", true), ("ne(", false)] {
        if let Some(inner) = e.strip_prefix(f).and_then(|r| r.strip_suffix(')')) {
            let (a, b) = split_args(inner);
            let same = text(&eval(scope, &a)?).to_lowercase() == text(&eval(scope, &b)?).to_lowercase();
            return Ok(YamlNode::Bool(same == want));
        }
    }
    scope.iter().rev().find(|(k, _)| k == e).map(|(_, v)| v.clone()).ok_or(format!("unknown name '{}'", e))
}

fn condition(scope: &Scope, c: &String) -> Result<bool, String> {
    Ok(matches!(eval(scope, c)?, YamlNode::Bool(true)))
}

fn collection(scope: &Scope, var: &String, c: &String) -> Result<Result<Vec<Scope>, String>, String> {
    match eval(scope, c)? {
        YamlNode::Sequence(items) => Ok(Ok(items
            .into_iter()
            .map(|it| {
                let mut s = scope.clone();
                s.push((var.clone(), it));
                s
            })
            .collect())),
        _ => Ok(Err("scalar".to_string())),
    }
}

fn substitute(scope: &Scope, t: &String) -> Result<String, ParseError> {
    let mut out = String::new();
    let mut rest = t.as_str();
    while let Some(start) = rest.find("${{") {
        out.push_str(&rest[..start]);
        let after = &rest[start + 3..];
        let end = after.find("}}").expect("closed expression");
        let v = eval(scope, &after[..end]).map_err(|m| ParseError::new(&m, 0, 0))?;
        out.push_str(&text(&v));
        rest = &after[end + 2..];
    }
    out.push_str(rest);
    Ok(out)
}

fn scope_of(params: &Vec<(String, YamlNode)>) -> Scope {
    params.iter().map(|(k, v)| (format!("parameters.{}", k), v.clone())).collect()
}

// ---------------------------------------------------------------------------
// Resolving against files held in memory
// ---------------------------------------------------------------------------

fn not_found(r: &str) -> ParseError {
    TemplateError::new(&format!("template '{}' not found (looked in /repo/{})", r, r), TemplateErrorKind::NotFound)
        .with_path(r)
        .to_parse_error()
}

/// Resolves `pipeline` with the files `files` (reference, text), loading
/// each when the resolution asks for it.
fn resolve(files: &[(&str, &str)], pipeline: Pipeline) -> Result<Pipeline, ParseError> {
    let mut tf = TemplateFiles { templates: Vec::new(), bases: Vec::new() };
    let hooks = TemplateHooks {
        evaluators: Evaluators { condition, collection, substitute },
        scope_of,
        read: read_content,
        parse: read_pipeline,
    };
    loop {
        let mut engine = TemplateEngine::new(PathBuf::from("/repo"));
        match engine.resolve_pipeline(pipeline.clone(), &tf, &hooks) {
            Ok(p) => return Ok(p),
            Err(Halt::Failed(e)) => return Err(e),
            Err(Halt::NeedTemplate(r)) => {
                let source = match files.iter().find(|(name, _)| *name == r) {
                    Some((_, t)) => {
                        let v: serde_yaml::Value = serde_yaml::from_str(t).unwrap();
                        let file: Result<RawTemplateFile, ParseError> =
                            engine.parse_raw_template_content(&r, t, &node_of(&v), &read_parameter);
                        TemplateSource::Loaded { canonical: format!("/repo/{}", r), file }
                    },
                    None => TemplateSource::Missing(not_found(&r)),
                };
                tf.templates.push((r, source));
            },
            Err(Halt::NeedBase(r)) => {
                let source = match files.iter().find(|(name, _)| *name == r) {
                    Some((_, t)) => BaseSource::Loaded { canonical: format!("/repo/{}", r), text: t.to_string() },
                    None => BaseSource::Missing(not_found(&r)),
                };
                tf.bases.push((r, source));
            },
        }
    }
}

fn template_step(template: &str, params: Vec<(&str, YamlNode)>) -> Step {
    Step {
        name: None,
        display_name: None,
        condition: None,
        continue_on_error: BoolOrExpression::default(),
        enabled: true,
        timeout_in_minutes: None,
        retry_count_on_task_failure: None,
        env: Vec::new(),
        action: StepAction::Template(TemplateStep {
            template: template.to_string(),
            parameters: params.into_iter().map(|(k, v)| (k.to_string(), v)).collect(),
        }),
    }
}

fn s(t: &str) -> YamlNode {
    YamlNode::String(t.to_string())
}

fn list(ts: &[&str]) -> YamlNode {
    YamlNode::Sequence(ts.iter().map(|t| s(t)).collect())
}

fn scripts(p: &Pipeline) -> Vec<String> {
    p.steps
        .iter()
        .map(|st| match &st.action {
            StepAction::Script(x) => x.script.clone(),
            other => panic!("expected script step, got {:?}", other),
        })
        .collect()
}

fn with_steps(steps: Vec<Step>) -> Pipeline {
    Pipeline { steps, ..Default::default() }
}

const BUILD: &str = "
parameters:
  - name: buildConfig
    type: string
    default: Debug

steps:
  - script: echo Building ${{ parameters.buildConfig }}
    displayName: Build ${{ parameters.buildConfig }}
";

#[test]
fn test_resolve_step_template() {
    let p = with_steps(vec![template_step("steps/build.yml", vec![("buildConfig", s("Release"))])]);
    let resolved = resolve(&[("steps/build.yml", BUILD)], p).unwrap();
    assert_eq!(resolved.steps.len(), 1);
    assert_eq!(scripts(&resolved), vec!["echo Building Release"]);
    assert_eq!(resolved.steps[0].display_name.as_deref(), Some("Build Release"));
}

#[test]
fn test_resolve_step_template_default_params() {
    let p = with_steps(vec![template_step("steps/build.yml", vec![])]);
    let resolved = resolve(&[("steps/build.yml", BUILD)], p).unwrap();
    assert_eq!(resolved.steps.len(), 1);
    assert_eq!(scripts(&resolved), vec!["echo Building Debug"]);
}

#[test]
fn test_resolve_job_template() {
    let file = "
parameters:
  - name: vmImage
    type: string
    default: ubuntu-latest
jobs:
  - job: Build
    pool:
      vmImage: ${{ parameters.vmImage }}
    steps:
      - script: cargo build
";
    let p = Pipeline {
        jobs: vec![Job {
            template: Some("jobs/build.yml".to_string()),
            parameters: vec![("vmImage".to_string(), s("windows-latest"))],
            ..Default::default()
        }],
        ..Default::default()
    };
    let resolved = resolve(&[("jobs/build.yml", file)], p).unwrap();
    assert_eq!(resolved.jobs.len(), 1);
    assert_eq!(resolved.jobs[0].job, Some("Build".to_string()));
}

#[test]
fn test_resolve_stage_template() {
    let file = "
parameters:
  - name: environment
    type: string
stages:
  - stage: Deploy
    displayName: Deploy to ${{ parameters.environment }}
    jobs:
      - job: DeployJob
        steps:
          - script: echo Deploying to ${{ parameters.environment }}
";
    let p = Pipeline {
        stages: vec![Stage {
            stage: Some("placeholder".to_string()),
            template: Some("stages/deploy.yml".to_string()),
            parameters: vec![("environment".to_string(), s("production"))],
            ..Default::default()
        }],
        ..Default::default()
    };
    let resolved = resolve(&[("stages/deploy.yml", file)], p).unwrap();
    assert_eq!(resolved.stages.len(), 1);
    assert_eq!(resolved.stages[0].display_name.as_deref(), Some("Deploy to production"));
}

#[test]
fn test_resolve_variable_template() {
    let file = "
variables:
  - name: buildConfig
    value: Release
  - name: testFramework
    value: NUnit
";
    let p = Pipeline {
        variables: vec![
            Variable::Template { template: "variables/common.yml".to_string(), parameters: Vec::new() },
            Variable::KeyValue { name: "extraVar".to_string(), value: "extraValue".to_string(), readonly: false },
        ],
        steps: vec![Step {
            action: StepAction::Script(ScriptStep {
                script: "echo hello".to_string(),
                working_directory: None,
                fail_on_stderr: false,
            }),
            ..template_step("unused", vec![])
        }],
        ..Default::default()
    };
    let resolved = resolve(&[("variables/common.yml", file)], p).unwrap();
    assert_eq!(resolved.variables.len(), 3);
}

#[test]
fn test_resolve_extends_template() {
    let file = "
parameters:
  - name: buildConfig
    type: string
    default: Debug

stages:
  - stage: Build
    jobs:
      - job: BuildJob
        steps:
          - script: echo Building ${{ parameters.buildConfig }}
";
    let p = Pipeline {
        extends: Some(Extends {
            template: "base-pipeline.yml".to_string(),
            parameters: vec![("buildConfig".to_string(), s("Release"))],
        }),
        ..Default::default()
    };
    let resolved = resolve(&[("base-pipeline.yml", file)], p).unwrap();
    assert_eq!(resolved.stages.len(), 1);
    assert_eq!(resolved.stages[0].stage, Some("Build".to_string()));
    match &resolved.stages[0].jobs[0].steps[0].action {
        StepAction::Script(x) => assert_eq!(x.script, "echo Building Release"),
        other => panic!("expected script step, got {:?}", other),
    }
}

#[test]
fn test_circular_reference_detection() {
    let files = [("a.yml", "\nsteps:\n  - template: b.yml\n"), ("b.yml", "\nsteps:\n  - template: a.yml\n")];
    let err = resolve(&files, with_steps(vec![template_step("a.yml", vec![])])).unwrap_err();
    assert!(
        err.message.contains("circular") || err.kind == ParseErrorKind::TemplateError,
        "Expected circular reference error, got: {}",
        err.message
    );
    assert!(err.message.contains("circular template reference detected"));
}

#[test]
fn test_missing_required_parameter() {
    let file = "
parameters:
  - name: buildConfig
    type: string
steps:
  - script: echo ${{ parameters.buildConfig }}
";
    let err = resolve(&[("steps/build.yml", file)], with_steps(vec![template_step("steps/build.yml", vec![])]))
        .unwrap_err();
    assert!(err.message.contains("required parameter"), "Expected missing parameter error, got: {}", err.message);
}

#[test]
fn test_template_not_found() {
    let err = resolve(&[], with_steps(vec![template_step("nonexistent.yml", vec![])])).unwrap_err();
    assert!(err.message.contains("not found"));
}

#[test]
fn test_nested_templates() {
    let inner = "
parameters:
  - name: msg
    type: string
steps:
  - script: echo ${{ parameters.msg }}
";
    let outer = "
parameters:
  - name: prefix
    type: string
steps:
  - script: echo Starting ${{ parameters.prefix }}
  - template: steps/inner.yml
    parameters:
      msg: ${{ parameters.prefix }} inner
  - script: echo Done ${{ parameters.prefix }}
";
    let p = with_steps(vec![template_step("steps/outer.yml", vec![("prefix", s("Build"))])]);
    let resolved = resolve(&[("steps/inner.yml", inner), ("steps/outer.yml", outer)], p).unwrap();
    assert_eq!(scripts(&resolved), vec!["echo Starting Build", "echo Build inner", "echo Done Build"]);
}

#[test]
fn test_macro_variables_preserved() {
    let file = "
parameters:
  - name: config
    type: string
steps:
  - script: echo Building $(Build.SourceBranch) with ${{ parameters.config }}
";
    let p = with_steps(vec![template_step("steps/build.yml", vec![("config", s("Release"))])]);
    let resolved = resolve(&[("steps/build.yml", file)], p).unwrap();
    assert_eq!(scripts(&resolved), vec!["echo Building $(Build.SourceBranch) with Release"]);
}

#[test]
fn test_simple_key_value_parameters() {
    let file = "
parameters:
  buildConfig: Debug
  platform: x64
steps:
  - script: echo ${{ parameters.buildConfig }} ${{ parameters.platform }}
";
    let p = with_steps(vec![template_step("steps/build.yml", vec![])]);
    let resolved = resolve(&[("steps/build.yml", file)], p).unwrap();
    assert_eq!(scripts(&resolved), vec!["echo Debug x64"]);
}

#[test]
fn test_multiple_step_templates() {
    let files = [
        ("steps/build.yml", "\nsteps:\n  - script: cargo build\n    displayName: Build\n"),
        ("steps/test.yml", "\nsteps:\n  - script: cargo test\n    displayName: Test\n"),
    ];
    let p = with_steps(vec![template_step("steps/build.yml", vec![]), template_step("steps/test.yml", vec![])]);
    let resolved = resolve(&files, p).unwrap();
    assert_eq!(resolved.steps.len(), 2);
    assert_eq!(resolved.steps[0].display_name.as_deref(), Some("Build"));
    assert_eq!(resolved.steps[1].display_name.as_deref(), Some("Test"));
}

#[test]
fn test_extends_with_child_overrides() {
    let file = "
variables:
  - name: baseVar
    value: baseValue
  - name: sharedVar
    value: fromBase
stages:
  - stage: Build
    jobs:
      - job: BuildJob
        steps:
          - script: echo base build
";
    let p = Pipeline {
        extends: Some(Extends { template: "base.yml".to_string(), parameters: Vec::new() }),
        variables: vec![Variable::KeyValue {
            name: "sharedVar".to_string(),
            value: "fromChild".to_string(),
            readonly: false,
        }],
        ..Default::default()
    };
    let resolved = resolve(&[("base.yml", file)], p).unwrap();
    let shared = resolved.variables.iter().find(|v| matches!(v, Variable::KeyValue { name, .. } if name == "sharedVar"));
    assert!(shared.is_some());
    if let Some(Variable::KeyValue { value, .. }) = shared {
        assert_eq!(value, "fromChild");
    }
}

fn run_steps_file(file: &str, params: Vec<(&str, YamlNode)>) -> Vec<String> {
    let p = with_steps(vec![template_step("steps/t.yml", params)]);
    scripts(&resolve(&[("steps/t.yml", file)], p).unwrap())
}

const IF_TESTS: &str = "
parameters:
  - name: runTests
    type: boolean
    default: true
steps:
  - script: echo always runs
  - ${{ if eq(parameters.runTests, true) }}:
    - script: cargo test
      displayName: Run Tests
";

#[test]
fn test_if_directive_true_condition() {
    let p = with_steps(vec![template_step("steps/t.yml", vec![("runTests", YamlNode::Bool(true))])]);
    let resolved = resolve(&[("steps/t.yml", IF_TESTS)], p).unwrap();
    assert_eq!(resolved.steps.len(), 2);
    assert_eq!(scripts(&resolved), vec!["echo always runs", "cargo test"]);
    assert_eq!(resolved.steps[1].display_name.as_deref(), Some("Run Tests"));
}

#[test]
fn test_if_directive_false_condition() {
    let got = run_steps_file(IF_TESTS, vec![("runTests", YamlNode::Bool(false))]);
    assert_eq!(got, vec!["echo always runs"]);
}

#[test]
fn test_if_directive_with_string_comparison() {
    let file = "
parameters:
  - name: environment
    type: string
steps:
  - script: echo deploying
  - ${{ if eq(parameters.environment, 'production') }}:
    - script: echo production safety checks
  - ${{ if ne(parameters.environment, 'production') }}:
    - script: echo skipping safety checks
";
    let got = run_steps_file(file, vec![("environment", s("production"))]);
    assert_eq!(got.len(), 2);
    assert_eq!(got[1], "echo production safety checks");
}

#[test]
fn test_if_directive_multiple_items() {
    let file = "
parameters:
  - name: includeExtra
    type: boolean
    default: true
steps:
  - script: echo first
  - ${{ if eq(parameters.includeExtra, true) }}:
    - script: echo extra step 1
    - script: echo extra step 2
    - script: echo extra step 3
  - script: echo last
";
    let got = run_steps_file(file, vec![("includeExtra", YamlNode::Bool(true))]);
    assert_eq!(got.len(), 5);
    assert_eq!(got[0], "echo first");
    assert_eq!(got[1], "echo extra step 1");
    assert_eq!(got[4], "echo last");
}

const EACH: &str = "
parameters:
  - name: environments
    type: object
steps:
  - ${{ each env in parameters.environments }}:
    - script: echo deploying to ${{ env }}
";

#[test]
fn test_each_directive_array() {
    let got = run_steps_file(EACH, vec![("environments", list(&["dev", "staging", "production"]))]);
    assert_eq!(got, vec!["echo deploying to dev", "echo deploying to staging", "echo deploying to production"]);
}

#[test]
fn test_each_directive_with_multiple_steps_per_iteration() {
    let file = "
parameters:
  - name: environments
    type: object
steps:
  - ${{ each env in parameters.environments }}:
    - script: echo starting deploy to ${{ env }}
    - script: echo finished deploy to ${{ env }}
";
    let got = run_steps_file(file, vec![("environments", list(&["dev", "prod"]))]);
    assert_eq!(
        got,
        vec![
            "echo starting deploy to dev",
            "echo finished deploy to dev",
            "echo starting deploy to prod",
            "echo finished deploy to prod"
        ]
    );
}

#[test]
fn test_each_directive_empty_array() {
    let file = "
parameters:
  - name: environments
    type: object
steps:
  - script: echo before
  - ${{ each env in parameters.environments }}:
    - script: echo deploying to ${{ env }}
  - script: echo after
";
    let got = run_steps_file(file, vec![("environments", list(&[]))]);
    assert_eq!(got, vec!["echo before", "echo after"]);
}

const IF_EACH: &str = "
parameters:
  - name: runDeploy
    type: boolean
  - name: environments
    type: object
steps:
  - script: echo building
  - ${{ if eq(parameters.runDeploy, true) }}:
    - ${{ each env in parameters.environments }}:
      - script: echo deploying to ${{ env }}
";

#[test]
fn test_if_and_each_combined() {
    let got =
        run_steps_file(IF_EACH, vec![("runDeploy", YamlNode::Bool(true)), ("environments", list(&["dev", "prod"]))]);
    assert_eq!(got.len(), 3);
    assert_eq!(got[1], "echo deploying to dev");
    assert_eq!(got[2], "echo deploying to prod");
}

#[test]
fn test_if_and_each_combined_false() {
    let got =
        run_steps_file(IF_EACH, vec![("runDeploy", YamlNode::Bool(false)), ("environments", list(&["dev", "prod"]))]);
    assert_eq!(got, vec!["echo building"]);
}

#[test]
fn test_each_directive_in_jobs() {
    let file = "
parameters:
  - name: environments
    type: object
jobs:
  - ${{ each env in parameters.environments }}:
    - job: Deploy_${{ env }}
      displayName: Deploy to ${{ env }}
      steps:
        - script: echo deploying to ${{ env }}
";
    let p = Pipeline {
        jobs: vec![Job {
            template: Some("jobs/deploy.yml".to_string()),
            parameters: vec![("environments".to_string(), list(&["dev", "staging"]))],
            ..Default::default()
        }],
        ..Default::default()
    };
    let resolved = resolve(&[("jobs/deploy.yml", file)], p).unwrap();
    assert_eq!(resolved.jobs.len(), 2);
    assert_eq!(resolved.jobs[0].job, Some("Deploy_dev".to_string()));
    assert_eq!(resolved.jobs[0].display_name.as_deref(), Some("Deploy to dev"));
    assert_eq!(resolved.jobs[1].job, Some("Deploy_staging".to_string()));
    assert_eq!(resolved.jobs[1].display_name.as_deref(), Some("Deploy to staging"));
}

const CHAIN: &str = "
parameters:
  - name: environment
    type: string
steps:
  - ${{ if eq(parameters.environment, 'production') }}:
    - script: echo deploying to production
  - ${{ elseif eq(parameters.environment, 'staging') }}:
    - script: echo deploying to staging
  - ${{ else }}:
    - script: echo deploying to dev
";

#[test]
fn test_if_elseif_else_chain_first_branch() {
    assert_eq!(run_steps_file(CHAIN, vec![("environment", s("production"))]), vec!["echo deploying to production"]);
}

#[test]
fn test_if_elseif_else_chain_second_branch() {
    assert_eq!(run_steps_file(CHAIN, vec![("environment", s("staging"))]), vec!["echo deploying to staging"]);
}

#[test]
fn test_if_elseif_else_chain_else_branch() {
    assert_eq!(run_steps_file(CHAIN, vec![("environment", s("dev"))]), vec!["echo deploying to dev"]);
}

#[test]
fn test_if_elseif_chain_multiple_elseif() {
    let file = "
parameters:
  - name: os
    type: string
steps:
  - ${{ if eq(parameters.os, 'linux') }}:
    - script: echo linux setup
  - ${{ elseif eq(parameters.os, 'macos') }}:
    - script: echo macos setup
  - ${{ elseif eq(parameters.os, 'windows') }}:
    - script: echo windows setup
  - ${{ else }}:
    - script: echo unknown os
";
    assert_eq!(run_steps_file(file, vec![("os", s("windows"))]), vec!["echo windows setup"]);
}

#[test]
fn test_if_chain_non_directive_breaks_chain() {
    let file = "
parameters:
  - name: flag
    type: boolean
steps:
  - ${{ if eq(parameters.flag, true) }}:
    - script: echo flag is true
  - script: echo always runs
  - ${{ else }}:
    - script: echo flag is false
";
    let got = run_steps_file(file, vec![("flag", YamlNode::Bool(true))]);
    assert_eq!(got.len(), 3);
    assert_eq!(got[0], "echo flag is true");
}

// ---------------------------------------------------------------------------
// Laws of resolution, on concrete values
// ---------------------------------------------------------------------------

#[test]
fn test_pipeline_without_templates_resolves_to_itself() {
    let step = Step {
        action: StepAction::Script(ScriptStep { script: "make".to_string(), working_directory: None, fail_on_stderr: false }),
        ..template_step("unused", vec![])
    };
    let p = with_steps(vec![step]);
    let resolved = resolve(&[], p).unwrap();
    assert_eq!(scripts(&resolved), vec!["make"]);
}

#[test]
fn test_resolution_asks_only_for_missing_files() {
    let tf = TemplateFiles { templates: Vec::new(), bases: Vec::new() };
    let hooks = TemplateHooks {
        evaluators: Evaluators { condition, collection, substitute },
        scope_of,
        read: read_content,
        parse: read_pipeline,
    };
    let mut engine = TemplateEngine::new(PathBuf::from("/repo"));
    match engine.resolve_pipeline(with_steps(vec![template_step("x.yml", vec![])]), &tf, &hooks) {
        Err(Halt::NeedTemplate(r)) => assert_eq!(r, "x.yml"),
        other => panic!("unexpected {:?}", other.is_ok()),
    }
    assert!(engine.include_stack().is_empty());
}

#[test]
fn test_template_of_wrong_kind_is_refused() {
    let file = "\njobs:\n  - job: A\n";
    let err = resolve(&[("t.yml", file)], with_steps(vec![template_step("t.yml", vec![])])).unwrap_err();
    assert_eq!(err.message, "template error in 't.yml': template 't.yml' does not contain steps");
}

#[test]
fn test_variable_template_of_wrong_kind_names_the_kind() {
    let file = "\nsteps:\n  - script: x\n";
    let p = Pipeline {
        variables: vec![Variable::Template { template: "v.yml".to_string(), parameters: Vec::new() }],
        ..Default::default()
    };
    let err = resolve(&[("v.yml", file)], p).unwrap_err();
    assert_eq!(
        err.message,
        "template error in 'v.yml': template 'v.yml' does not contain variables (found \"steps\" content instead)"
    );
}
