use pipeline_service::runners::{
    parse_logging_commands, parse_runner_commands, powershell_script, LoggingCommand, RunnerValue, Shell,
    ShellConfig, ShellRunner,
};
use pipeline_service::models::StepStatus;
use std::collections::HashMap;
use std::time::Duration;

fn get<'a, V>(pairs: &'a [(String, V)], key: &str) -> Option<&'a V> {
    pairs.iter().find(|(k, _)| k == key).map(|(_, v)| v)
}

#[test]
fn test_parse_logging_commands_setvariable() {
    let output = r#"
Starting build
##vso[task.setvariable variable=version]1.0.0
##vso[task.setvariable variable=output;isoutput=true]result_value
Build complete
"#;

    let effects = parse_logging_commands(output);

    assert!(matches!(get(&effects.variables, "version"), Some(RunnerValue::Text(v)) if v == "1.0.0"));
    assert_eq!(get(&effects.outputs, "output"), Some(&"result_value".to_string()));
    assert!(matches!(get(&effects.variables, "output"), Some(RunnerValue::Text(v)) if v == "result_value"));
}

#[test]
fn test_parse_logging_commands_secret() {
    let output = "##vso[task.setvariable variable=password;issecret=true]secretvalue";

    let effects = parse_logging_commands(output);

    assert!(get(&effects.variables, "password").is_none());
    assert!(get(&effects.outputs, "password").is_none());
}

#[test]
fn test_parse_logging_commands_build_tag() {
    let output = r#"
##vso[build.addbuildtag]release
##vso[build.addbuildtag]v1.0
"#;

    let effects = parse_logging_commands(output);

    let tags = get(&effects.variables, "_BUILD_TAGS").unwrap();
    if let RunnerValue::List(arr) = tags {
        assert_eq!(arr.len(), 2);
        assert_eq!(arr[0], "release");
        assert_eq!(arr[1], "v1.0");
    } else {
        panic!("Expected array");
    }
}

#[test]
fn prepend_upload_and_result_are_gathered() {
    let out = "##vso[task.prependpath]/opt/bin\n##vso[task.prependpath]/usr/local/bin\n##vso[task.uploadfile]log.txt\n##vso[task.complete result=Failed;]x\n##vso[task.complete result=Succeeded]y";
    let effects = parse_logging_commands(out);
    assert!(matches!(get(&effects.variables, "_PREPEND_PATH"), Some(RunnerValue::List(l)) if l == &vec!["/opt/bin".to_string(), "/usr/local/bin".to_string()]));
    assert!(matches!(get(&effects.variables, "_UPLOAD_FILES"), Some(RunnerValue::List(l)) if l == &vec!["log.txt".to_string()]));
    assert!(matches!(get(&effects.variables, "_TASK_RESULT"), Some(RunnerValue::Text(r)) if r == "Succeeded"));
    assert!(effects.outputs.is_empty());
}

#[test]
fn a_text_variable_is_not_turned_into_a_list() {
    let out = "##vso[task.setvariable variable=_BUILD_TAGS]plain\n##vso[build.addbuildtag]t1";
    let effects = parse_logging_commands(out);
    assert_eq!(effects.variables.len(), 1);
    assert!(matches!(get(&effects.variables, "_BUILD_TAGS"), Some(RunnerValue::Text(v)) if v == "plain"));
}

#[test]
fn a_variable_set_twice_keeps_the_last_value() {
    let out = "##vso[task.setvariable variable=v;isoutput=true]1\n##vso[task.setvariable variable=v;isoutput=true]2";
    let effects = parse_logging_commands(out);
    assert_eq!(effects.outputs, vec![("v".to_string(), "2".to_string())]);
    assert_eq!(effects.variables.len(), 1);
    assert!(matches!(get(&effects.variables, "v"), Some(RunnerValue::Text(v)) if v == "2"));
}

#[test]
fn test_to_step_result_success() {
    let runner = ShellRunner::new();
    let result = runner.to_step_result(
        "Success".to_string(),
        String::new(),
        Some(0),
        HashMap::new(),
        Some("test_step".to_string()),
        Some("Test Step".to_string()),
        false,
        Duration::from_secs(1),
    );

    assert_eq!(result.status, StepStatus::Succeeded);
    assert_eq!(result.output, "Success");
    assert!(result.error.is_none());
    assert_eq!(result.exit_code, Some(0));
}

#[test]
fn test_to_step_result_fail_on_stderr() {
    let runner = ShellRunner::new();
    let result = runner.to_step_result(
        "Output".to_string(),
        "Warning message".to_string(),
        Some(0),
        HashMap::new(),
        None,
        None,
        true,
        Duration::from_secs(1),
    );

    assert_eq!(result.status, StepStatus::Failed);
    assert_eq!(result.error, Some("Warning message".to_string()));
}

#[test]
fn other_logging_commands() {
    let out = "##vso[task.prependpath]/opt/bin\n##vso[task.uploadfile]log.txt\n##vso[task.complete result=Failed;result=SucceededWithIssues;]done\n##vso[task.setVariable variable=x]1\nplain";
    let cmds = parse_runner_commands(out);
    assert_eq!(cmds.len(), 4);
    assert!(matches!(&cmds[0], LoggingCommand::PrependPath(p) if p == "/opt/bin"));
    assert!(matches!(&cmds[1], LoggingCommand::UploadFile(p) if p == "log.txt"));
    assert!(matches!(&cmds[2], LoggingCommand::TaskResult(r) if r == "SucceededWithIssues"));
    assert!(matches!(&cmds[3], LoggingCommand::SetVariable(v) if v.name == "x" && v.value == "1"));
}

#[test]
fn shell_commands() {
    let (prog, args) = Shell::Default.get_command(false);
    assert_eq!(prog, "sh");
    assert_eq!(args, vec!["-c"]);
    let (prog, args) = Shell::PowerShell.get_command(false);
    assert_eq!(prog, "pwsh");
    assert_eq!(args, vec!["-NoLogo", "-NoProfile", "-Command"]);
    let (prog, _) = Shell::PowerShell.get_command(true);
    assert_eq!(prog, "powershell.exe");
    assert_eq!(Shell::Default.get_command(true).0, "cmd");
}

#[test]
fn powershell_preference_prefix() {
    let mut config = ShellConfig::default();
    assert_eq!(powershell_script(&config, "Write-Host hi"), "Write-Host hi");
    config.error_action_preference = Some("Stop".to_string());
    assert_eq!(
        powershell_script(&config, "Write-Host hi"),
        "$ErrorActionPreference = 'Stop'\nWrite-Host hi"
    );
}

#[test]
fn missing_exit_code_fails() {
    let runner = ShellRunner::with_default_shell(Shell::Bash);
    assert_eq!(runner.default_shell, Shell::Bash);
    let r = runner.to_step_result(String::new(), String::new(), None, HashMap::new(), None, None, false, Duration::from_secs(0));
    assert_eq!(r.status, StepStatus::Failed);
}
