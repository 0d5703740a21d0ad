use pipeline_service::parse_error::{
    extract_expected_fields, extract_field_name, format_invalid_type_error,
    format_yaml_error_message, suggest_yaml_fix, ParseError, ParseErrorKind, ValidationError,
};

#[test]
fn test_parse_error_display() {
    let err = ParseError::new("missing required field 'steps'", 10, 5)
        .with_context("   9 | jobs:\n> 10 |   - job: Build\n  11 |     pool: ubuntu-latest")
        .with_suggestion("add 'steps:' to define what the job should do");

    let output = err.to_display_string();
    assert!(output.contains("missing required field"));
    assert!(output.contains("line 10:5"));
    assert!(output.contains("help:"));
}

#[test]
fn test_parse_error_with_source_context() {
    let source = r#"trigger:
  - main

pool:
  vmImage: ubuntu-latest

jobs:
  - job: Build
    displayName: Build Job"#;

    let err =
        ParseError::new("missing required field 'steps'", 8, 5).with_source_context(source, 2);

    assert!(err.context.contains("> "));
    assert!(err.context.contains("job: Build"));
}

#[test]
fn test_extract_field_name() {
    let msg = "missing field `steps` at line 10";
    assert_eq!(
        extract_field_name(msg, "missing field `", "`"),
        Some("steps".to_string())
    );
}

#[test]
fn source_context_marks_line_and_column() {
    let source = "a: 1\nb: 2\nc: 3\nd: 4\ne: 5";
    let err = ParseError::new("bad", 3, 2).with_source_context(source, 1);
    assert_eq!(
        err.context,
        "     2 | b: 2\n>    3 | c: 3\n       |  ^\n     4 | d: 4\n"
    );
}

#[test]
fn display_without_context_or_help() {
    let err = ParseError::yaml_error("oops", 1, 1);
    assert_eq!(err.to_display_string(), "error: oops\n  --> line 1:1\n");
    assert_eq!(err.kind, ParseErrorKind::YamlSyntax);
    let k = ParseError::new("x", 0, 0).with_kind(ParseErrorKind::IoError);
    assert_eq!(k.kind, ParseErrorKind::IoError);
}

#[test]
fn yaml_messages_are_reworded() {
    assert_eq!(
        format_yaml_error_message("jobs[0]: missing field `steps` at line 3 column 5"),
        "missing required field 'steps'"
    );
    assert_eq!(
        format_yaml_error_message(
            "unknown field `scrip`, expected one of `script`, `bash` at line 2 column 3"
        ),
        "unknown field 'scrip', expected one of: script, bash"
    );
    assert_eq!(
        format_yaml_error_message("invalid type: expected a sequence, found a map at line 1"),
        "expected a sequence, but found a map"
    );
    assert_eq!(
        format_invalid_type_error("invalid type without details"),
        "invalid type without details"
    );
    assert_eq!(format_yaml_error_message("something else"), "something else");
}

#[test]
fn expected_fields_are_listed() {
    assert_eq!(
        extract_expected_fields("unknown field `x`, expected one of `a`, `b` at line 1"),
        Some(vec!["a".to_string(), "b".to_string()])
    );
    assert_eq!(extract_expected_fields("nothing listed"), None);
}

#[test]
fn yaml_fix_hints() {
    assert_eq!(
        suggest_yaml_fix("missing field `steps`", "", 1),
        Some("jobs must have a 'steps' field. Add steps to define what the job should do.".to_string())
    );
    assert_eq!(
        suggest_yaml_fix("some error", "a: 1\n  dependson: x\n", 2),
        Some("did you mean 'dependsOn'?".to_string())
    );
    assert_eq!(
        suggest_yaml_fix("expected x, found y", "\tkey: v", 1),
        Some("YAML prefers spaces over tabs for indentation. Replace tabs with spaces.".to_string())
    );
    assert_eq!(suggest_yaml_fix("other", "fine: yes", 1), None);
}

#[test]
fn validation_error_display() {
    let e = ValidationError::new("job must have steps", "jobs[0]");
    assert_eq!(e.to_display_string(), "validation error at 'jobs[0]': job must have steps");
    let e = e.with_suggestion("add 'steps:'");
    assert_eq!(
        e.to_display_string(),
        "validation error at 'jobs[0]': job must have steps (add 'steps:')"
    );
}

#[test]
fn errors_from_yaml_carry_position_and_context() {
    let source = "jobs:\n  - job: A\n    steps: [";
    let err = serde_yaml::from_str::<serde_yaml::Value>(source).unwrap_err();
    let pe = ParseError::from_yaml_error(&err, source);
    assert_eq!(pe.kind, ParseErrorKind::YamlSyntax);
    assert!(pe.line >= 1);
    let parts = ParseError::from_yaml_parts("missing field `steps`", Some((2, 3)), source);
    assert_eq!(parts.message, "missing required field 'steps'");
    assert_eq!(parts.line, 2);
    assert_eq!(parts.column, 3);
    assert!(parts.suggestion.is_some());
}
