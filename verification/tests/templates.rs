use pipeline_service::parse_error::ParseErrorKind;
use pipeline_service::template::{
    BranchChain, ChainStep, ItemKind, TemplateDirective, TemplateEngine, TemplateError,
    TemplateErrorKind,
};
use pipeline_service::models::{Pipeline, Pool, Stage};
use std::path::PathBuf;

#[test]
fn test_parse_directive_if() {
    let result = TemplateEngine::parse_directive("${{ if eq(parameters.x, true) }}");
    assert!(result.is_some());
    if let Some(TemplateDirective::If(condition)) = result {
        assert_eq!(condition, "eq(parameters.x, true)");
    } else {
        panic!("expected If directive");
    }
}

#[test]
fn test_parse_directive_elseif() {
    let result = TemplateEngine::parse_directive("${{ elseif eq(parameters.x, 'y') }}");
    assert!(result.is_some());
    if let Some(TemplateDirective::ElseIf(condition)) = result {
        assert_eq!(condition, "eq(parameters.x, 'y')");
    } else {
        panic!("expected ElseIf directive");
    }
}

#[test]
fn test_parse_directive_else_if() {
    let result = TemplateEngine::parse_directive("${{ else if ne(parameters.a, 'b') }}");
    assert!(result.is_some());
    if let Some(TemplateDirective::ElseIf(condition)) = result {
        assert_eq!(condition, "ne(parameters.a, 'b')");
    } else {
        panic!("expected ElseIf directive");
    }
}

#[test]
fn test_parse_directive_else() {
    let result = TemplateEngine::parse_directive("${{ else }}");
    assert!(result.is_some());
    assert!(matches!(result, Some(TemplateDirective::Else)));
}

#[test]
fn test_parse_directive_each() {
    let result = TemplateEngine::parse_directive("${{ each env in parameters.environments }}");
    assert!(result.is_some());
    if let Some(TemplateDirective::Each(var, collection)) = result {
        assert_eq!(var, "env");
        assert_eq!(collection, "parameters.environments");
    } else {
        panic!("expected Each directive");
    }
}

#[test]
fn test_parse_directive_not_a_directive() {
    assert!(TemplateEngine::parse_directive("regular string").is_none());
    assert!(TemplateEngine::parse_directive("${{ parameters.x }}").is_none());
    assert!(TemplateEngine::parse_directive("${{ }}").is_none());
}

#[test]
fn each_needs_both_sides() {
    assert!(TemplateEngine::parse_directive("${{ each in parameters.x }}").is_none());
    assert!(TemplateEngine::parse_directive("${{ each x in }}").is_none());
    assert!(TemplateEngine::parse_directive("${{ each x }}").is_none());
}

fn walk(items: &[(ItemKind, bool)]) -> Vec<bool> {
    let mut chain = BranchChain::new();
    let mut expanded = Vec::new();
    for (kind, cond) in items {
        let step = chain.enter(*kind);
        let e = match step {
            ChainStep::Evaluate => chain.resolve(*cond),
            ChainStep::Expand => true,
            _ => false,
        };
        expanded.push(e);
    }
    expanded
}

#[test]
fn first_true_branch_is_taken() {
    assert_eq!(
        walk(&[(ItemKind::If, false), (ItemKind::ElseIf, true), (ItemKind::Else, false)]),
        vec![false, true, false]
    );
    assert_eq!(
        walk(&[(ItemKind::If, false), (ItemKind::ElseIf, false), (ItemKind::Else, false)]),
        vec![false, false, true]
    );
    assert_eq!(
        walk(&[(ItemKind::If, true), (ItemKind::ElseIf, true), (ItemKind::Else, false)]),
        vec![true, false, false]
    );
}

#[test]
fn non_directive_breaks_the_chain() {
    assert_eq!(
        walk(&[(ItemKind::If, true), (ItemKind::Plain, false), (ItemKind::Else, false)]),
        vec![true, false, true]
    );
}

#[test]
fn include_stack_rejects_cycles() {
    let mut engine = TemplateEngine::new(PathBuf::from("."));
    engine.push_template("a.yml").unwrap();
    engine.push_template("b.yml").unwrap();
    let err = engine.push_template("a.yml").unwrap_err();
    assert_eq!(err.kind, ParseErrorKind::TemplateError);
    assert_eq!(
        err.message,
        "template error: circular template reference detected:\n  a.yml\n  -> b.yml\n  -> a.yml"
    );
    assert_eq!(engine.include_stack().len(), 2);
    engine.pop_template();
    engine.pop_template();
    assert!(engine.include_stack().is_empty());
    engine.pop_template();
    assert!(engine.include_stack().is_empty());
}

#[test]
fn include_stack_is_bounded() {
    let mut engine = TemplateEngine::new(PathBuf::from("."));
    for i in 0..50 {
        engine.push_template(&format!("t{}.yml", i)).unwrap();
    }
    let err = engine.push_template("more.yml").unwrap_err();
    assert!(err
        .message
        .starts_with("template error: maximum template inclusion depth (50) exceeded. Include stack:\n  t0.yml\n  -> t1.yml"));
}

#[test]
fn resource_repos_latest_wins() {
    let engine = TemplateEngine::new(PathBuf::from("/repo"))
        .with_resource_repo("templates".to_string(), PathBuf::from("/a"))
        .with_resource_repo("templates".to_string(), PathBuf::from("/b"));
    assert_eq!(engine.resource_repo("templates"), Some(&PathBuf::from("/b")));
    assert_eq!(engine.resource_repo("other"), None);
    assert_eq!(engine.repo_root(), &PathBuf::from("/repo"));
}

#[test]
fn template_error_text() {
    let e = TemplateError::new("not found", TemplateErrorKind::NotFound);
    assert_eq!(e.to_display_string(), "template error: not found");
    let e = e.with_path("steps/build.yml");
    assert_eq!(e.to_display_string(), "template error in 'steps/build.yml': not found");
    let p = e.to_parse_error();
    assert_eq!(p.kind, ParseErrorKind::TemplateError);
    assert_eq!(p.message, "template error in 'steps/build.yml': not found");
    assert_eq!(p.line, 0);
}

fn key_value(name: &str, value: &str) -> pipeline_service::models::Variable {
    pipeline_service::models::Variable::KeyValue {
        name: name.to_string(),
        value: value.to_string(),
        readonly: false,
    }
}

fn variable_values(vars: &[pipeline_service::models::Variable]) -> Vec<(String, String)> {
    vars.iter()
        .filter_map(|v| match v {
            pipeline_service::models::Variable::KeyValue { name, value, .. } => {
                Some((name.clone(), value.clone()))
            }
            _ => None,
        })
        .collect()
}

#[test]
fn merge_extends_child_variable_overrides_parent() {
    let engine = TemplateEngine::new(PathBuf::from("/repo"));
    let parent = Pipeline {
        variables: vec![key_value("baseVar", "baseValue"), key_value("sharedVar", "fromBase")],
        stages: vec![Stage {
            stage: Some("Build".to_string()),
            ..Default::default()
        }],
        name: Some("base".to_string()),
        ..Default::default()
    };
    let child = Pipeline {
        variables: vec![key_value("sharedVar", "fromChild")],
        ..Default::default()
    };
    let merged = engine.merge_extends(parent, child);
    assert_eq!(
        variable_values(&merged.variables),
        vec![
            ("baseVar".to_string(), "baseValue".to_string()),
            ("sharedVar".to_string(), "fromChild".to_string()),
        ]
    );
    assert_eq!(merged.stages.len(), 1);
    assert_eq!(merged.stages[0].stage.as_deref(), Some("Build"));
    assert_eq!(merged.name.as_deref(), Some("base"));
}

#[test]
fn merge_extends_child_settings_replace_parent() {
    let engine = TemplateEngine::new(PathBuf::from("/repo"));
    let parent = Pipeline {
        name: Some("base".to_string()),
        pool: Some(Pool::Name("parent-pool".to_string())),
        variables: vec![key_value("a", "1"), key_value("b", "2"), key_value("a", "3")],
        ..Default::default()
    };
    let child = Pipeline {
        name: Some("child".to_string()),
        variables: vec![key_value("c", "4"), key_value("a", "5"), key_value("c", "6")],
        ..Default::default()
    };
    let merged = engine.merge_extends(parent, child);
    assert_eq!(merged.name.as_deref(), Some("child"));
    assert!(matches!(merged.pool, Some(Pool::Name(ref p)) if p == "parent-pool"));
    assert_eq!(
        variable_values(&merged.variables),
        vec![
            ("b".to_string(), "2".to_string()),
            ("a".to_string(), "5".to_string()),
            ("c".to_string(), "6".to_string()),
        ]
    );
}
