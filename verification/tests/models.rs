use pipeline_service::models::{
    default_true, is_directive_key, keys_mark_directive, BoolOrExpression, DependsOn, Job,
};

#[test]
fn test_depends_on_as_vec() {
    assert_eq!(DependsOn::Default.as_vec(), Vec::<String>::new());
    assert_eq!(DependsOn::Nothing.as_vec(), Vec::<String>::new());
    assert_eq!(
        DependsOn::Single("build".to_string()).as_vec(),
        vec!["build".to_string()]
    );
    assert_eq!(
        DependsOn::Multiple(vec!["a".to_string(), "b".to_string()]).as_vec(),
        vec!["a".to_string(), "b".to_string()]
    );
}

#[test]
fn explicit_none_is_recognised() {
    assert!(DependsOn::Nothing.is_explicit_none());
    assert!(!DependsOn::Default.is_explicit_none());
}

#[test]
fn bool_or_expression_reads_literals_only() {
    assert!(BoolOrExpression::Bool(true).as_bool());
    assert!(!BoolOrExpression::Expression("$[eq(1, 1)]".to_string()).as_bool());
    assert!(!BoolOrExpression::default().as_bool());
    assert!(default_true());
}

#[test]
fn job_identifier_prefers_job_name() {
    let mut job = Job::default();
    assert_eq!(job.identifier(), None);
    job.deployment = Some("Deploy".to_string());
    assert_eq!(job.identifier(), Some("Deploy"));
    job.job = Some("Build".to_string());
    assert_eq!(job.identifier(), Some("Build"));
}

#[test]
fn directive_keys() {
    assert!(is_directive_key("${{ if true }}"));
    assert!(is_directive_key("   ${{ each x in y }}"));
    assert!(!is_directive_key("script"));
    assert!(keys_mark_directive(&vec![None, Some("steps".to_string()), Some("${{ else }}".to_string())]));
    assert!(!keys_mark_directive(&vec![Some("steps".to_string())]));
}

#[test]
fn template_directives_in_yaml_values() {
    let v: serde_yaml::Value = serde_yaml::from_str("${{ if true }}:\n  - script: x").unwrap();
    assert!(pipeline_service::models::is_template_directive(&v));
    let w: serde_yaml::Value = serde_yaml::from_str("script: echo").unwrap();
    assert!(!pipeline_service::models::is_template_directive(&w));
}
