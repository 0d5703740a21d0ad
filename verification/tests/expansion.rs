use pipeline_service::expansion::{Evaluators, YamlNode};
use pipeline_service::parse_error::{ParseError, ParseErrorKind};
use pipeline_service::template::{TemplateDirective, TemplateEngine};
use std::path::PathBuf;

type Scope = Vec<(String, String)>;

fn lookup(scope: &Scope, name: &str) -> Option<String> {
    scope.iter().rev().find(|(k, _)| k == name).map(|(_, v)| v.clone())
}

fn strip_parameters(name: &str) -> &str {
    name.trim().strip_prefix("parameters.").unwrap_or(name.trim())
}

/// `eq(parameters.x, v)` compares a bound parameter with `v` (quotes
/// dropped); `true` and `false` are literals; anything else fails.
fn condition(scope: &Scope, text: &String) -> Result<bool, String> {
    let t = text.trim();
    if t == "true" {
        return Ok(true);
    }
    if t == "false" {
        return Ok(false);
    }
    if let Some(inner) = t.strip_prefix("eq(").and_then(|r| r.strip_suffix(')')) {
        let mut parts = inner.splitn(2, ',');
        let left = parts.next().unwrap_or("");
        let right = parts.next().unwrap_or("").trim().trim_matches('\'');
        let value = lookup(scope, strip_parameters(left)).unwrap_or_default();
        return Ok(value == right);
    }
    Err(format!("unknown function in '{}'", t))
}

/// `parameters.x` is a bound list `a,b,c` (empty: no element); a bound value
/// starting with `scalar:` is not iterable; an unbound name fails.
fn collection(scope: &Scope, var: &String, text: &String) -> Result<Result<Vec<Scope>, String>, String> {
    let value = match lookup(scope, strip_parameters(text)) {
        Some(v) => v,
        None => return Err(format!("unknown parameter '{}'", text)),
    };
    if let Some(rest) = value.strip_prefix("scalar:") {
        return Ok(Err(rest.to_string()));
    }
    let elements: Vec<&str> = if value.is_empty() { Vec::new() } else { value.split(',').collect() };
    Ok(Ok(elements
        .into_iter()
        .map(|e| {
            let mut s = scope.clone();
            s.push((var.clone(), e.to_string()));
            s
        })
        .collect()))
}

/// Replaces `${{ name }}` and `${{ parameters.name }}` by bound values;
/// `${{ broken }}` fails.
fn substitute(scope: &Scope, text: &String) -> Result<String, ParseError> {
    let mut out = String::new();
    let mut rest = text.as_str();
    while let Some(start) = rest.find("${{") {
        out.push_str(&rest[..start]);
        let after = &rest[start + 3..];
        let end = after.find("}}").expect("closed expression");
        let name = strip_parameters(&after[..end]);
        if name == "broken" {
            return Err(ParseError::new("cannot substitute", 0, 0));
        }
        out.push_str(&lookup(scope, name).unwrap_or_default());
        rest = &after[end + 2..];
    }
    out.push_str(rest);
    Ok(out)
}

fn evaluators() -> Evaluators<
    fn(&Scope, &String) -> Result<bool, String>,
    fn(&Scope, &String, &String) -> Result<Result<Vec<Scope>, String>, String>,
    fn(&Scope, &String) -> Result<String, ParseError>,
> {
    Evaluators { condition, collection, substitute }
}

fn s(text: &str) -> YamlNode {
    YamlNode::String(text.to_string())
}

fn map(entries: Vec<(&str, YamlNode)>) -> YamlNode {
    YamlNode::Mapping(entries.into_iter().map(|(k, v)| (s(k), v)).collect())
}

fn script(text: &str) -> YamlNode {
    map(vec![("script", s(text))])
}

fn seq(items: Vec<YamlNode>) -> YamlNode {
    YamlNode::Sequence(items)
}

fn scope(pairs: &[(&str, &str)]) -> Scope {
    pairs.iter().map(|(k, v)| (k.to_string(), v.to_string())).collect()
}

fn engine() -> TemplateEngine {
    TemplateEngine::new(PathBuf::from("/repo"))
}

fn scripts(node: &YamlNode) -> Vec<String> {
    match node {
        YamlNode::Sequence(items) => items
            .iter()
            .map(|item| match item {
                YamlNode::Mapping(es) => match &es[0] {
                    (YamlNode::String(k), YamlNode::String(v)) if k == "script" => v.clone(),
                    _ => panic!("expected a script step"),
                },
                _ => panic!("expected a mapping"),
            })
            .collect(),
        _ => panic!("expected a sequence"),
    }
}

fn expand(tree: &YamlNode, sc: &Scope) -> Result<YamlNode, ParseError> {
    engine().process_template_expressions(tree, sc, &evaluators())
}

#[test]
fn if_directive_true_condition_includes_body() {
    let tree = seq(vec![
        script("echo always runs"),
        map(vec![(
            "${{ if eq(parameters.runTests, true) }}",
            seq(vec![map(vec![("script", s("cargo test")), ("displayName", s("Run Tests"))])]),
        )]),
    ]);
    let out = expand(&tree, &scope(&[("runTests", "true")])).unwrap();
    match &out {
        YamlNode::Sequence(items) => {
            assert_eq!(items.len(), 2);
            match &items[1] {
                YamlNode::Mapping(es) => {
                    assert_eq!(es.len(), 2);
                    assert!(matches!(&es[1], (YamlNode::String(k), YamlNode::String(v)) if k == "displayName" && v == "Run Tests"));
                }
                _ => panic!("expected a mapping"),
            }
        }
        _ => panic!("expected a sequence"),
    }
    assert_eq!(scripts(&out)[0], "echo always runs");
}

#[test]
fn if_directive_false_condition_drops_body() {
    let tree = seq(vec![
        script("echo always runs"),
        map(vec![("${{ if eq(parameters.runTests, true) }}", seq(vec![script("cargo test")]))]),
    ]);
    let out = expand(&tree, &scope(&[("runTests", "false")])).unwrap();
    assert_eq!(scripts(&out), vec!["echo always runs"]);
}

#[test]
fn if_directive_string_comparison() {
    let tree = seq(vec![map(vec![(
        "${{ if eq(parameters.env, 'prod') }}",
        seq(vec![script("deploy prod")]),
    )])]);
    assert_eq!(scripts(&expand(&tree, &scope(&[("env", "prod")])).unwrap()), vec!["deploy prod"]);
    assert!(scripts(&expand(&tree, &scope(&[("env", "dev")])).unwrap()).is_empty());
}

#[test]
fn each_directive_expands_body_per_element() {
    let tree = seq(vec![map(vec![(
        "${{ each env in parameters.environments }}",
        seq(vec![script("echo deploying to ${{ env }}"), script("echo done with ${{ env }}")]),
    )])]);
    let out = expand(&tree, &scope(&[("environments", "dev,staging,prod")])).unwrap();
    assert_eq!(
        scripts(&out),
        vec![
            "echo deploying to dev",
            "echo done with dev",
            "echo deploying to staging",
            "echo done with staging",
            "echo deploying to prod",
            "echo done with prod",
        ]
    );
}

#[test]
fn each_directive_empty_collection_gives_nothing() {
    let tree = seq(vec![
        script("before"),
        map(vec![("${{ each env in parameters.environments }}", seq(vec![script("echo ${{ env }}")]))]),
        script("after"),
    ]);
    let out = expand(&tree, &scope(&[("environments", "")])).unwrap();
    assert_eq!(scripts(&out), vec!["before", "after"]);
}

#[test]
fn if_and_each_combined() {
    let tree = seq(vec![map(vec![(
        "${{ if eq(parameters.deploy, true) }}",
        seq(vec![map(vec![(
            "${{ each region in parameters.regions }}",
            seq(vec![script("deploy to ${{ region }}")]),
        )])]),
    )])]);
    let sc = scope(&[("deploy", "true"), ("regions", "east,west")]);
    assert_eq!(scripts(&expand(&tree, &sc).unwrap()), vec!["deploy to east", "deploy to west"]);
    let sc = scope(&[("deploy", "false"), ("regions", "east,west")]);
    assert!(scripts(&expand(&tree, &sc).unwrap()).is_empty());
}

fn chain_tree() -> YamlNode {
    seq(vec![
        map(vec![("${{ if eq(parameters.env, 'dev') }}", seq(vec![script("dev")]))]),
        map(vec![("${{ elseif eq(parameters.env, 'staging') }}", seq(vec![script("staging")]))]),
        map(vec![("${{ else if eq(parameters.env, 'qa') }}", seq(vec![script("qa")]))]),
        map(vec![("${{ else }}", seq(vec![script("other")]))]),
    ])
}

#[test]
fn if_elseif_else_chain_takes_first_true_branch() {
    assert_eq!(scripts(&expand(&chain_tree(), &scope(&[("env", "dev")])).unwrap()), vec!["dev"]);
    assert_eq!(scripts(&expand(&chain_tree(), &scope(&[("env", "staging")])).unwrap()), vec!["staging"]);
    assert_eq!(scripts(&expand(&chain_tree(), &scope(&[("env", "qa")])).unwrap()), vec!["qa"]);
    assert_eq!(scripts(&expand(&chain_tree(), &scope(&[("env", "prod")])).unwrap()), vec!["other"]);
}

#[test]
fn non_directive_item_breaks_the_chain() {
    let tree = seq(vec![
        map(vec![("${{ if eq(parameters.flag, true) }}", seq(vec![script("echo flag is true")]))]),
        script("echo always runs"),
        map(vec![("${{ else }}", seq(vec![script("echo flag is false")]))]),
    ]);
    let out = expand(&tree, &scope(&[("flag", "true")])).unwrap();
    assert_eq!(scripts(&out), vec!["echo flag is true", "echo always runs", "echo flag is false"]);
}

#[test]
fn mapping_level_if_merges_entries() {
    let tree = map(vec![
        ("name", s("job")),
        ("${{ if eq(parameters.debug, true) }}", map(vec![("verbose", s("yes")), ("name", s("debug job"))])),
        ("${{ else }}", map(vec![("ignored", s("x"))])),
    ]);
    let out = expand(&tree, &scope(&[("debug", "true")])).unwrap();
    match out {
        YamlNode::Mapping(es) => {
            let keys: Vec<String> = es
                .iter()
                .map(|(k, v)| match (k, v) {
                    (YamlNode::String(k), YamlNode::String(v)) => format!("{}={}", k, v),
                    _ => panic!("expected strings"),
                })
                .collect();
            assert_eq!(keys, vec!["name=debug job", "verbose=yes"]);
        }
        _ => panic!("expected a mapping"),
    }
}

#[test]
fn mapping_level_each_substitutes_keys() {
    let tree = map(vec![(
        "${{ each svc in parameters.services }}",
        map(vec![("${{ svc }}_image", s("${{ svc }}:latest"))]),
    )]);
    let out = expand(&tree, &scope(&[("services", "web,db")])).unwrap();
    match out {
        YamlNode::Mapping(es) => {
            let pairs: Vec<(String, String)> = es
                .iter()
                .map(|(k, v)| match (k, v) {
                    (YamlNode::String(k), YamlNode::String(v)) => (k.clone(), v.clone()),
                    _ => panic!("expected strings"),
                })
                .collect();
            assert_eq!(
                pairs,
                vec![
                    ("web_image".to_string(), "web:latest".to_string()),
                    ("db_image".to_string(), "db:latest".to_string()),
                ]
            );
        }
        _ => panic!("expected a mapping"),
    }
}

#[test]
fn failed_condition_reports_the_condition() {
    let tree = seq(vec![map(vec![("${{ if bogus() }}", seq(vec![script("x")]))])]);
    let err = expand(&tree, &scope(&[])).unwrap_err();
    assert_eq!(
        err.message,
        "template error: error evaluating if condition 'bogus()': unknown function in 'bogus()'"
    );
    assert_eq!(err.kind, ParseErrorKind::TemplateError);
    let tree = seq(vec![
        map(vec![("${{ if false }}", seq(vec![script("x")]))]),
        map(vec![("${{ elseif bogus() }}", seq(vec![script("y")]))]),
    ]);
    let err = expand(&tree, &scope(&[])).unwrap_err();
    assert_eq!(
        err.message,
        "template error: error evaluating elseif condition 'bogus()': unknown function in 'bogus()'"
    );
}

#[test]
fn failed_collection_is_reported() {
    let tree = seq(vec![map(vec![("${{ each x in parameters.missing }}", seq(vec![script("x")]))])]);
    let err = expand(&tree, &scope(&[])).unwrap_err();
    assert_eq!(
        err.message,
        "template error: error evaluating each collection 'parameters.missing': unknown parameter 'parameters.missing'"
    );
    let tree = seq(vec![map(vec![("${{ each x in parameters.one }}", seq(vec![script("x")]))])]);
    let err = expand(&tree, &scope(&[("one", "scalar:42")])).unwrap_err();
    assert_eq!(err.message, "template error: each directive requires an array or object, got: 42");
}

#[test]
fn not_iterable_collection_under_scalar_mapping_body_is_ignored() {
    let tree = map(vec![("${{ each x in parameters.one }}", s("not a mapping")), ("keep", s("v"))]);
    let out = expand(&tree, &scope(&[("one", "scalar:42")])).unwrap();
    match out {
        YamlNode::Mapping(es) => assert_eq!(es.len(), 1),
        _ => panic!("expected a mapping"),
    }
}

#[test]
fn substitution_error_is_passed_through() {
    let tree = seq(vec![script("${{ broken }}")]);
    let err = expand(&tree, &scope(&[])).unwrap_err();
    assert_eq!(err.message, "cannot substitute");
}

#[test]
fn scalars_pass_through_unchanged() {
    let tree = seq(vec![
        YamlNode::Null,
        YamlNode::Bool(true),
        YamlNode::Number("1.5".to_string()),
        YamlNode::Tagged("!custom".to_string(), Box::new(s("${{ x }}"))),
    ]);
    let out = expand(&tree, &scope(&[("x", "y")])).unwrap();
    match out {
        YamlNode::Sequence(items) => {
            assert!(matches!(items[0], YamlNode::Null));
            assert!(matches!(items[1], YamlNode::Bool(true)));
            assert!(matches!(&items[2], YamlNode::Number(n) if n == "1.5"));
            assert!(matches!(&items[3], YamlNode::Tagged(t, v) if t == "!custom" && matches!(&**v, YamlNode::String(x) if x == "${{ x }}")));
        }
        _ => panic!("expected a sequence"),
    }
}

#[test]
fn duplicate_keys_keep_first_position_with_last_value() {
    let tree = map(vec![("a", s("1")), ("b", s("2")), ("a", s("3"))]);
    let out = expand(&tree, &scope(&[])).unwrap();
    match out {
        YamlNode::Mapping(es) => {
            assert_eq!(es.len(), 2);
            assert!(matches!(&es[0], (YamlNode::String(k), YamlNode::String(v)) if k == "a" && v == "3"));
        }
        _ => panic!("expected a mapping"),
    }
}

#[test]
fn extract_directive_reads_one_entry_mappings() {
    let e = engine();
    let item = map(vec![("${{ each x in parameters.list }}", seq(vec![]))]);
    match e.extract_directive(&item) {
        Some((TemplateDirective::Each(v, c), body)) => {
            assert_eq!(v, "x");
            assert_eq!(c, "parameters.list");
            assert!(matches!(body, YamlNode::Sequence(items) if items.is_empty()));
        }
        _ => panic!("expected an each directive"),
    }
    let two = map(vec![("${{ else }}", seq(vec![])), ("other", s("x"))]);
    assert!(e.extract_directive(&two).is_none());
    assert!(e.extract_directive(&script("x")).is_none());
}

#[test]
fn expand_directive_body_wraps_non_sequences() {
    let e = engine();
    let sc = scope(&[("x", "v")]);
    let ev = evaluators();
    let items = e.expand_directive_body(&s("value ${{ x }}"), &sc, &ev).unwrap();
    assert_eq!(items.len(), 1);
    assert!(matches!(&items[0], YamlNode::String(t) if t == "value v"));
    let items = e.expand_directive_body(&seq(vec![s("a"), s("b")]), &sc, &ev).unwrap();
    assert_eq!(items.len(), 2);
}

#[test]
fn substitute_yaml_value_only_touches_strings() {
    let e = engine();
    let sc = scope(&[("x", "v")]);
    let ev = evaluators();
    assert!(matches!(e.substitute_yaml_value(&s("${{ x }}_key"), &sc, &ev).unwrap(), YamlNode::String(t) if t == "v_key"));
    assert!(matches!(e.substitute_yaml_value(&YamlNode::Bool(false), &sc, &ev).unwrap(), YamlNode::Bool(false)));
}

#[test]
fn values_without_expressions_come_back_unchanged() {
    let tree = seq(vec![
        map(vec![("script", s("echo hi")), ("displayName", s("Hi"))]),
        map(vec![("each", s("not a directive")), ("if", seq(vec![s("a"), YamlNode::Bool(true), YamlNode::Null]))]),
        YamlNode::Number("3".to_string()),
    ]);
    let out = expand(&tree, &scope(&[])).unwrap();
    assert_eq!(format!("{:?}", out), format!("{:?}", tree));
}
