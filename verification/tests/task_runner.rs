use pipeline_service::manifest::{TaskExecution, TaskExecutionSection, TaskInput, TaskManifest, TaskVersion};
use pipeline_service::task_cache::CachedTask;
use pipeline_service::task_runner::{HandlerRun, TaskPlan, TaskRunner, TaskRunnerError, TaskScript, TaskShell};
use std::path::PathBuf;

fn input(name: &str, default: Option<&str>, required: Option<bool>) -> TaskInput {
    TaskInput {
        name: name.to_string(),
        input_type: None,
        label: None,
        default_value: default.map(|s| s.to_string()),
        required,
        help_mark_down: None,
        group_name: None,
        visible_rule: None,
        options: None,
        properties: None,
        validation: None,
        aliases: None,
    }
}

fn handler(target: &str) -> TaskExecution {
    TaskExecution { target: target.to_string(), working_directory: None, platforms: None, argument_format: None }
}

fn manifest(name: &str, inputs: Vec<TaskInput>, execution: Option<TaskExecutionSection>) -> TaskManifest {
    TaskManifest {
        id: "test".to_string(),
        name: name.to_string(),
        friendly_name: Some(format!("{} task", name)),
        description: None,
        help_url: None,
        help_mark_down: None,
        category: None,
        visibility: None,
        runs_on: None,
        author: None,
        version: TaskVersion { major: 1, minor: 0, patch: 0 },
        minimum_agent_version: None,
        instance_name_format: None,
        groups: None,
        inputs,
        output_variables: None,
        execution,
        pre_job_execution: None,
        post_job_execution: None,
        data_source_bindings: None,
        messages: None,
        restrictions: None,
        demands: None,
    }
}

fn cached(name: &str, inputs: Vec<TaskInput>, execution: Option<TaskExecutionSection>) -> CachedTask {
    CachedTask {
        name: name.to_string(),
        version: "1".to_string(),
        path: PathBuf::from("/tmp/test"),
        manifest: manifest(name, inputs, execution),
    }
}

fn section(node: Option<TaskExecution>, powershell3: Option<TaskExecution>) -> TaskExecutionSection {
    TaskExecutionSection { node, node10: None, node16: None, node20: None, powershell: None, powershell3 }
}

fn pairs(items: &[(&str, &str)]) -> Vec<(String, String)> {
    items.iter().map(|(k, v)| (k.to_string(), v.to_string())).collect()
}

fn runner() -> TaskRunner {
    TaskRunner::new(PathBuf::from("/tmp/tasks"), Some(PathBuf::from("/usr/bin/node")), None)
}

fn lookup<'a>(pairs: &'a [(String, String)], key: &str) -> Option<&'a String> {
    pairs.iter().rev().find(|(k, _)| k == key).map(|(_, v)| v)
}

#[test]
fn test_merge_inputs() {
    let runner = runner();
    let task = cached("Test", vec![input("input1", Some("default_value"), None)], None);

    let inputs = pairs(&[("input2", "custom_value")]);

    let merged = runner.merge_inputs(&task, &inputs);

    assert_eq!(lookup(&merged, "input1"), Some(&"default_value".to_string()));
    assert_eq!(lookup(&merged, "input2"), Some(&"custom_value".to_string()));
}

#[test]
fn provided_inputs_replace_defaults_in_place() {
    let runner = runner();
    let task = cached(
        "Test",
        vec![input("a", Some("1"), None), input("b", Some("2"), None), input("c", None, None)],
        None,
    );
    let merged = runner.merge_inputs(&task, &pairs(&[("b", "x"), ("d", "y"), ("b", "z")]));
    assert_eq!(merged, pairs(&[("a", "1"), ("b", "z"), ("d", "y")]));
}

#[test]
fn validate_inputs_reports_first_missing_required_input() {
    let runner = runner();
    let mut with_alias = input("target", None, Some(true));
    with_alias.aliases = Some(vec!["dest".to_string()]);
    let mut hidden = input("password", None, Some(true));
    hidden.visible_rule = Some("auth != none".to_string());
    let task = cached(
        "Test",
        vec![
            input("optional", None, None),
            input("defaulted", Some("x"), Some(true)),
            with_alias,
            hidden,
            input("script", None, Some(true)),
            input("other", None, Some(true)),
        ],
        None,
    );
    // The alias covers `target`; `password` is hidden while `auth` is absent.
    match runner.validate_inputs(&task, &pairs(&[("dest", "/out")])) {
        Err(TaskRunnerError::MissingInput(name)) => assert_eq!(name, "script"),
        other => panic!("expected a missing input, got {:?}", other),
    }
    // With `auth` given, the visibility rule no longer hides `password`.
    match runner.validate_inputs(&task, &pairs(&[("dest", "/out"), ("auth", "basic")])) {
        Err(TaskRunnerError::MissingInput(name)) => assert_eq!(name, "password"),
        other => panic!("expected a missing input, got {:?}", other),
    }
    assert!(runner
        .validate_inputs(&task, &pairs(&[("dest", "/out"), ("script", "s"), ("other", "o")]))
        .is_ok());
}

#[test]
fn bash_task_inline_script() {
    let runner = runner();
    let plan = runner
        .bash_task(&pairs(&[("targetType", "inline"), ("script", "echo 'Hello from Bash task'")]))
        .unwrap();
    match plan {
        TaskPlan::Script { shell, script, config, display_name } => {
            assert_eq!(shell, TaskShell::Bash);
            assert!(matches!(script, TaskScript::Inline(ref s) if s == "echo 'Hello from Bash task'"));
            assert!(config.working_dir.is_none());
            assert!(!config.fail_on_stderr);
            assert_eq!(display_name, "Bash");
        }
        _ => panic!("expected a script plan"),
    }
}

#[test]
fn bash_task_defaults_to_inline_and_reads_config() {
    let runner = runner();
    let plan = runner
        .bash_task(&pairs(&[("script", "make"), ("workingDirectory", "/src"), ("failOnStderr", "true")]))
        .unwrap();
    match plan {
        TaskPlan::Script { script, config, .. } => {
            assert!(matches!(script, TaskScript::Inline(ref s) if s == "make"));
            assert_eq!(config.working_dir.as_deref(), Some("/src"));
            assert!(config.fail_on_stderr);
        }
        _ => panic!("expected a script plan"),
    }
    let plan = runner.bash_task(&pairs(&[("targetType", "filePath"), ("filePath", "build.sh")])).unwrap();
    assert!(matches!(plan, TaskPlan::Script { script: TaskScript::File(ref f), .. } if f == "build.sh"));
}

#[test]
fn bash_task_errors() {
    let runner = runner();
    match runner.bash_task(&pairs(&[])) {
        Err(TaskRunnerError::MissingInput(n)) => assert_eq!(n, "script"),
        _ => panic!("expected a missing script"),
    }
    match runner.bash_task(&pairs(&[("targetType", "filePath")])) {
        Err(TaskRunnerError::MissingInput(n)) => assert_eq!(n, "filePath"),
        _ => panic!("expected a missing file path"),
    }
    let err = runner.bash_task(&pairs(&[("targetType", "remote")])).unwrap_err();
    assert_eq!(err.to_display_string(), "Task execution failed: Unknown targetType: remote");
}

#[test]
fn powershell_task_picks_the_shell() {
    let runner = runner();
    let plan = runner
        .powershell_task(&pairs(&[("script", "Get-Date"), ("pwsh", "true"), ("errorActionPreference", "Stop")]))
        .unwrap();
    match plan {
        TaskPlan::Script { shell, config, display_name, .. } => {
            assert_eq!(shell, TaskShell::Pwsh);
            assert_eq!(config.error_action_preference.as_deref(), Some("Stop"));
            assert_eq!(display_name, "PowerShell");
        }
        _ => panic!("expected a script plan"),
    }
    let plan = runner.powershell_task(&pairs(&[("script", "Get-Date"), ("pwsh", "false")])).unwrap();
    assert!(matches!(plan, TaskPlan::Script { shell: TaskShell::PowerShell, .. }));
}

#[test]
fn cmdline_task_needs_a_script() {
    let runner = runner();
    let plan = runner.cmdline_task(&pairs(&[("script", "echo Hello from CmdLine")])).unwrap();
    match plan {
        TaskPlan::Script { shell, script, display_name, .. } => {
            assert_eq!(shell, TaskShell::Script);
            assert!(matches!(script, TaskScript::Inline(ref s) if s == "echo Hello from CmdLine"));
            assert_eq!(display_name, "Command Line");
        }
        _ => panic!("expected a script plan"),
    }
    assert_eq!(
        runner.cmdline_task(&pairs(&[])).unwrap_err().to_display_string(),
        "Missing required input: script"
    );
}

#[test]
fn generic_task_runs_its_handler() {
    let runner = runner();
    let task = cached("Deploy", vec![], Some(section(Some(handler("index.js")), None)));
    match runner.generic_task(&task, &pairs(&[("connected service", "x"), ("app.name", "web")])).unwrap() {
        TaskPlan::Handler { input_env, run, display_name, target } => {
            assert_eq!(input_env, pairs(&[("INPUT_CONNECTED_SERVICE", "x"), ("INPUT_APP_NAME", "web")]));
            assert!(matches!(run, Ok(HandlerRun::Node)));
            assert_eq!(display_name.as_deref(), Some("Deploy task"));
            assert_eq!(target, PathBuf::from("/tmp/test/index.js"));
        }
        _ => panic!("expected a handler plan"),
    }
    let no_node = TaskRunner::new(PathBuf::from("/tmp/tasks"), None, None);
    match no_node.generic_task(&task, &pairs(&[])).unwrap() {
        TaskPlan::Handler { run: Err(e), .. } => {
            assert_eq!(e.to_display_string(), "Task execution failed: Node.js not found")
        }
        _ => panic!("expected a failed handler plan"),
    }
    let ps = cached("Script", vec![], Some(section(None, Some(handler("run.ps1")))));
    assert!(matches!(no_node.generic_task(&ps, &pairs(&[])).unwrap(), TaskPlan::Handler { run: Ok(HandlerRun::PowerShell), .. }));
    let none = cached("Empty", vec![], None);
    assert_eq!(
        runner.generic_task(&none, &pairs(&[])).unwrap_err().to_display_string(),
        "Unsupported task execution type: No execution defined"
    );
}

#[test]
fn task_plan_dispatches_on_the_task_name() {
    let runner = runner();
    let bash = cached("Bash", vec![], None);
    assert!(matches!(runner.task_plan(&bash, &pairs(&[("script", "ls")])).unwrap(), TaskPlan::Script { shell: TaskShell::Bash, .. }));
    let cmd = cached("CmdLine", vec![], None);
    assert!(matches!(runner.task_plan(&cmd, &pairs(&[("script", "ls")])).unwrap(), TaskPlan::Script { shell: TaskShell::Script, .. }));
    let other = cached("Custom", vec![], None);
    assert!(matches!(runner.task_plan(&other, &pairs(&[])), Err(TaskRunnerError::UnsupportedExecution(_))));
}
