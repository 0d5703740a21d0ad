use pipeline_service::manifest::{
    TaskExecution, TaskExecutionSection, TaskInput, TaskManifest, TaskVersion,
};
use pipeline_service::task_cache::{
    create_builtin_task_stub, parse_u32_str, TaskCache, TaskCacheError,
};

#[test]
fn test_builtin_task_stub_bash() {
    let manifest = create_builtin_task_stub("Bash", "3").unwrap();
    assert_eq!(manifest.name, "Bash");
    assert_eq!(manifest.version.major, 3);
}

#[test]
fn test_builtin_task_stub_powershell() {
    let manifest = create_builtin_task_stub("PowerShell", "2").unwrap();
    assert_eq!(manifest.name, "PowerShell");
    assert_eq!(manifest.version.major, 2);
}

#[test]
fn test_builtin_task_stub_unknown() {
    let manifest = create_builtin_task_stub("UnknownTask", "1");
    assert!(manifest.is_none());
}

#[test]
fn test_parse_task_reference() {
    let (name, version) = TaskCache::parse_task_reference("Bash@3").unwrap();
    assert_eq!(name, "Bash");
    assert_eq!(version, "3");

    let (name, version) = TaskCache::parse_task_reference("DotNetCoreCLI@2.123.4").unwrap();
    assert_eq!(name, "DotNetCoreCLI");
    assert_eq!(version, "2.123.4");
}

#[test]
fn test_parse_invalid_task_reference() {
    assert!(TaskCache::parse_task_reference("Bash").is_err());
    assert!(TaskCache::parse_task_reference("Bash@").is_err());
    assert!(TaskCache::parse_task_reference("@3").is_err());
}

#[test]
fn invalid_reference_error_text() {
    match TaskCache::parse_task_reference("a@b@c") {
        Err(e @ TaskCacheError::InvalidTaskReference(_)) => {
            assert_eq!(e.to_display_string(), "Invalid task reference: a@b@c")
        }
        other => panic!("unexpected {:?}", other.map(|_| ())),
    }
}

#[test]
fn stub_versions_and_inputs() {
    let m = create_builtin_task_stub("CmdLine", "2.201.1").unwrap();
    assert_eq!(m.version_string(), "2.0.0");
    assert_eq!(m.required_inputs(), vec!["script"]);
    assert!(create_builtin_task_stub("Bash", "x.1").is_none());
    assert!(create_builtin_task_stub("Bash", "").is_none());
    let ps = create_builtin_task_stub("PowerShell", "+2").unwrap();
    assert_eq!(ps.inputs.len(), 4);
    assert_eq!(
        ps.default_values(),
        vec![
            ("targetType".to_string(), "inline".to_string()),
            ("pwsh".to_string(), "false".to_string())
        ]
    );
}

#[test]
fn decimal_parsing_matches_std() {
    for s in ["0", "42", "+7", "4294967295", "4294967296", "", "+", "-1", "1a", " 1"] {
        assert_eq!(parse_u32_str(s), s.parse::<u32>().ok(), "input {:?}", s);
    }
}

fn handler(target: &str) -> TaskExecution {
    TaskExecution {
        target: target.to_string(),
        working_directory: None,
        platforms: None,
        argument_format: None,
    }
}

#[test]
fn primary_execution_prefers_node() {
    let mut m = create_builtin_task_stub("Bash", "3").unwrap();
    assert!(m.primary_execution().is_none());
    assert!(!m.is_node_task());
    m.execution = Some(TaskExecutionSection {
        node: None,
        node10: Some(handler("bash10.js")),
        node16: Some(handler("bash16.js")),
        node20: None,
        powershell: Some(handler("bash.ps1")),
        powershell3: None,
    });
    assert_eq!(m.primary_execution().unwrap().target, "bash10.js");
    assert!(m.is_node_task());
    assert!(m.is_powershell_task());
    assert_eq!(m.primary_execution().unwrap().execution_type(), "Node");
    let _ = TaskVersion { major: 1, minor: 2, patch: 3 };
    let _ = TaskInput {
        name: "x".to_string(),
        input_type: None,
        label: None,
        default_value: None,
        required: Some(true),
        help_mark_down: None,
        group_name: None,
        visible_rule: None,
        options: None,
        properties: None,
        validation: None,
        aliases: None,
    };
    let _: Option<TaskManifest> = None;
}

#[test]
fn builtin_stubs_describe_their_inputs() {
    let bash = create_builtin_task_stub("Bash", "3").unwrap();
    assert_eq!(bash.default_values(), vec![("targetType".to_string(), "inline".to_string())]);
    assert_eq!(bash.inputs[1].visible_rule, Some("targetType = inline".to_string()));
    assert_eq!(bash.friendly_name, Some("Bash".to_string()));
    assert_eq!(bash.category, Some("Utility".to_string()));
    let cmd = create_builtin_task_stub("CmdLine", "2").unwrap();
    assert!(cmd.default_values().is_empty());
    assert_eq!(cmd.description, Some("Run a command line script".to_string()));
    assert_eq!(cmd.inputs[0].input_type, Some("multiLine".to_string()));
}
