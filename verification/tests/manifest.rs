use pipeline_service::manifest::{
    TaskExecution, TaskExecutionSection, TaskGroup, TaskInput, TaskManifest, TaskManifestError, TaskVersion,
};
use std::collections::HashMap;

fn input(
    name: &str,
    input_type: &str,
    label: &str,
    required: Option<bool>,
    default_value: Option<&str>,
    visible_rule: Option<&str>,
    group_name: Option<&str>,
) -> TaskInput {
    TaskInput {
        name: name.to_string(),
        input_type: Some(input_type.to_string()),
        label: Some(label.to_string()),
        default_value: default_value.map(|s| s.to_string()),
        required,
        help_mark_down: None,
        group_name: group_name.map(|s| s.to_string()),
        visible_rule: visible_rule.map(|s| s.to_string()),
        options: None,
        properties: None,
        validation: None,
        aliases: None,
    }
}

fn node_execution(target: &str) -> TaskExecution {
    TaskExecution { target: target.to_string(), working_directory: None, platforms: None, argument_format: None }
}

/// The sample Bash task manifest, built by hand.
fn sample() -> TaskManifest {
    let mut options = HashMap::new();
    options.insert("filePath".to_string(), "File Path".to_string());
    options.insert("inline".to_string(), "Inline".to_string());
    let mut target_type = input("targetType", "radio", "Type", Some(false), Some("filePath"), None, None);
    target_type.options = Some(options);
    TaskManifest {
        id: "6c731c3c-3c68-459a-a5c9-bde6e6595b5b".to_string(),
        name: "Bash".to_string(),
        friendly_name: Some("Bash".to_string()),
        description: Some("Run a Bash script on macOS, Linux, or Windows".to_string()),
        help_url: Some("https://docs.microsoft.com/azure/devops/pipelines/tasks/utility/bash".to_string()),
        help_mark_down: None,
        category: Some("Utility".to_string()),
        visibility: Some(vec!["Build".to_string(), "Release".to_string()]),
        runs_on: Some(vec!["Agent".to_string(), "DeploymentGroup".to_string()]),
        author: Some("Microsoft Corporation".to_string()),
        version: TaskVersion { major: 3, minor: 231, patch: 0 },
        minimum_agent_version: None,
        instance_name_format: Some("Bash Script".to_string()),
        groups: Some(vec![TaskGroup {
            name: "advanced".to_string(),
            display_name: Some("Advanced".to_string()),
            is_expanded: Some(false),
        }]),
        inputs: vec![
            target_type,
            input("filePath", "filePath", "Script Path", Some(true), None, Some("targetType = filePath"), None),
            input(
                "script",
                "multiLine",
                "Script",
                Some(true),
                Some("echo Hello world"),
                Some("targetType = inline"),
                None,
            ),
            input("workingDirectory", "filePath", "Working Directory", None, None, None, Some("advanced")),
            input("failOnStderr", "boolean", "Fail on Standard Error", None, Some("false"), None, Some("advanced")),
        ],
        output_variables: None,
        execution: Some(TaskExecutionSection {
            node: None,
            node10: Some(node_execution("bash.js")),
            node16: Some(node_execution("bash.js")),
            node20: None,
            powershell: None,
            powershell3: None,
        }),
        pre_job_execution: None,
        post_job_execution: None,
        data_source_bindings: None,
        messages: None,
        restrictions: None,
        demands: None,
    }
}

fn get<'a>(pairs: &'a [(String, String)], key: &str) -> Option<&'a String> {
    pairs.iter().find(|(k, _)| k == key).map(|(_, v)| v)
}

#[test]
fn test_task_inputs() {
    let manifest = sample();

    assert_eq!(manifest.inputs.len(), 5);
    assert_eq!(manifest.inputs[0].name, "targetType");
    assert_eq!(manifest.inputs[0].default_value, Some("filePath".to_string()));
}

#[test]
fn test_required_inputs() {
    let manifest = sample();
    let required = manifest.required_inputs();

    assert!(required.contains(&"filePath"));
    assert!(required.contains(&"script"));
}

#[test]
fn test_default_values() {
    let manifest = sample();
    let defaults = manifest.default_values();

    assert_eq!(get(&defaults, "targetType"), Some(&"filePath".to_string()));
    assert_eq!(get(&defaults, "failOnStderr"), Some(&"false".to_string()));
}

#[test]
fn test_is_node_task() {
    let manifest = sample();
    assert!(manifest.is_node_task());
    assert!(!manifest.is_powershell_task());
}

#[test]
fn test_primary_execution() {
    let manifest = sample();
    let exec = manifest.primary_execution().unwrap();

    assert_eq!(exec.target, "bash.js");
}

#[test]
fn sample_version_string() {
    assert_eq!(sample().version_string(), "3.231.0");
}

#[test]
fn parse_errors_display_the_json_error() {
    let text = serde_json::from_str::<serde_json::Value>("{").unwrap_err().to_string();
    let e = TaskManifestError::ParseError(serde_json::from_str::<serde_json::Value>("{").unwrap_err());
    assert_eq!(e.to_display_string(), format!("Failed to parse task manifest: {}", text));
    let nf = TaskManifestError::NotFound("/x/task.json".to_string());
    assert_eq!(nf.to_display_string(), "Task manifest not found at: /x/task.json");
}
