use pipeline_service::expansion::YamlNode;
use pipeline_service::models::{Parameter, ParameterType};
use pipeline_service::parameters::{is_float_literal, RawTemplateContent};
use pipeline_service::parse_error::ParseErrorKind;
use pipeline_service::template::TemplateEngine;
use std::path::PathBuf;

fn engine() -> TemplateEngine {
    TemplateEngine::new(PathBuf::from("/repo"))
}

fn s(t: &str) -> YamlNode {
    YamlNode::String(t.to_string())
}

fn param(name: &str, t: ParameterType, default: Option<YamlNode>) -> Parameter {
    Parameter { name: name.to_string(), display_name: None, param_type: t, default, values: None }
}

fn passed(pairs: Vec<(&str, YamlNode)>) -> Vec<(String, YamlNode)> {
    pairs.into_iter().map(|(k, v)| (k.to_string(), v)).collect()
}

fn texts(ps: &[(String, YamlNode)]) -> Vec<(String, String)> {
    ps.iter()
        .map(|(k, v)| {
            (
                k.clone(),
                match v {
                    YamlNode::String(t) | YamlNode::Number(t) => t.clone(),
                    YamlNode::Bool(b) => b.to_string(),
                    other => format!("{:?}", other),
                },
            )
        })
        .collect()
}

#[test]
fn float_literals_follow_the_standard_grammar() {
    for ok in ["1", "-1.5", "1e10", "+.5", "5.", "2.5E-3", "inf", "-Infinity", "NaN", "007"] {
        assert!(is_float_literal(ok), "{} should be a float", ok);
        assert!(ok.parse::<f64>().is_ok());
    }
    for bad in ["", ".", "e5", "1e", " 1", "1.2.3", "abc", "0x10", "+", "1e+", "infinit"] {
        assert!(!is_float_literal(bad), "{} should not be a float", bad);
        assert!(bad.parse::<f64>().is_err());
    }
}

#[test]
fn missing_required_parameter_is_reported() {
    let declared = vec![param("buildConfig", ParameterType::String, None)];
    let err = engine().resolve_parameters(&declared, &passed(vec![]), "steps/build.yml").unwrap_err();
    assert!(err.message.contains("required parameter"), "Expected missing parameter error, got: {}", err.message);
    assert_eq!(
        err.message,
        "template error in 'steps/build.yml': required parameter 'buildConfig' not provided for template 'steps/build.yml'"
    );
    assert_eq!(err.kind, ParseErrorKind::TemplateError);
}

#[test]
fn defaults_fill_in_and_passed_values_win() {
    let declared = vec![
        param("buildConfig", ParameterType::String, Some(s("Debug"))),
        param("platform", ParameterType::String, Some(s("x64"))),
    ];
    let resolved = engine().resolve_parameters(&declared, &passed(vec![]), "steps/build.yml").unwrap();
    assert_eq!(texts(&resolved), vec![("buildConfig".into(), "Debug".into()), ("platform".into(), "x64".into())]);

    let resolved = engine()
        .resolve_parameters(
            &declared,
            &passed(vec![("platform", s("arm64")), ("extra", YamlNode::Bool(true))]),
            "steps/build.yml",
        )
        .unwrap();
    assert_eq!(
        texts(&resolved),
        vec![
            ("buildConfig".into(), "Debug".into()),
            ("platform".into(), "arm64".into()),
            ("extra".into(), "true".into()),
        ]
    );
}

#[test]
fn passed_values_are_checked_against_types_and_allowed_values() {
    let e = engine();
    let declared = vec![param("count", ParameterType::Number, None)];
    assert!(e.resolve_parameters(&declared, &passed(vec![("count", YamlNode::Number("3".into()))]), "t.yml").is_ok());
    assert!(e.resolve_parameters(&declared, &passed(vec![("count", s("2.5"))]), "t.yml").is_ok());
    let err = e.resolve_parameters(&declared, &passed(vec![("count", s("many"))]), "t.yml").unwrap_err();
    assert_eq!(err.message, "template error in 't.yml': parameter 'count' expected type Number but got String(\"many\")");

    let mut env = param("env", ParameterType::String, Some(s("dev")));
    env.values = Some(vec![s("dev"), s("prod")]);
    let declared = vec![env];
    assert!(e.resolve_parameters(&declared, &passed(vec![("env", s("prod"))]), "t.yml").is_ok());
    let err = e.resolve_parameters(&declared, &passed(vec![("env", s("qa"))]), "t.yml").unwrap_err();
    assert_eq!(err.message, "template error in 't.yml': parameter 'env' value not in allowed values");
}

#[test]
fn parameter_types_accept_their_shapes() {
    let e = engine();
    let ok = |t: ParameterType, v: YamlNode| e.validate_parameter_type("p", &v, &t, "t.yml").is_ok();
    assert!(ok(ParameterType::String, YamlNode::Number("1".into())));
    assert!(ok(ParameterType::String, YamlNode::Bool(false)));
    assert!(!ok(ParameterType::String, YamlNode::Null));
    assert!(ok(ParameterType::Boolean, s("true")));
    assert!(!ok(ParameterType::Boolean, s("yes")));
    assert!(ok(ParameterType::Object, YamlNode::Sequence(vec![])));
    assert!(ok(ParameterType::Step, YamlNode::Mapping(vec![])));
    assert!(!ok(ParameterType::StepList, YamlNode::Mapping(vec![])));
    assert!(ok(ParameterType::StageList, YamlNode::Tagged("!list".into(), Box::new(YamlNode::Sequence(vec![])))));
}

fn read(node: &YamlNode) -> Result<Parameter, String> {
    match node {
        YamlNode::Mapping(es) => match es.iter().find(|(k, _)| matches!(k, YamlNode::String(n) if n == "name")) {
            Some((_, YamlNode::String(n))) => Ok(param(n, ParameterType::String, None)),
            _ => Err("missing field `name`".to_string()),
        },
        _ => Err("expected a mapping".to_string()),
    }
}

#[test]
fn parameter_lists_in_both_forms() {
    let e = engine();
    let short = YamlNode::Mapping(vec![
        (s("buildConfig"), s("Debug")),
        (YamlNode::Number("1".into()), s("skipped")),
        (s("platform"), s("x64")),
    ]);
    let ps = e.parse_template_parameters(&short, &read).unwrap();
    assert_eq!(ps.len(), 2);
    assert_eq!(ps[0].name, "buildConfig");
    assert!(matches!(ps[0].default, Some(YamlNode::String(ref d)) if d == "Debug"));
    assert!(matches!(ps[1].param_type, ParameterType::String));

    let list = YamlNode::Sequence(vec![YamlNode::Mapping(vec![(s("name"), s("a"))])]);
    let ps = e.parse_template_parameters(&list, &read).unwrap();
    assert_eq!(ps[0].name, "a");

    let bad = YamlNode::Sequence(vec![YamlNode::Mapping(vec![(s("type"), s("string"))])]);
    let err = e.parse_template_parameters(&bad, &read).unwrap_err();
    assert_eq!(err.message, "invalid parameter definition: missing field `name`");

    let err = e.parse_template_parameters(&s("oops"), &read).unwrap_err();
    assert_eq!(err.message, "parameters must be a list or mapping");
}

type Bindings = Vec<(String, String)>;

fn cond(_: &Bindings, c: &String) -> Result<bool, String> {
    Ok(c.trim() == "true")
}

fn coll(_: &Bindings, _: &String, _: &String) -> Result<Result<Vec<Bindings>, String>, String> {
    Ok(Ok(Vec::new()))
}

fn subst(scope: &Bindings, t: &String) -> Result<String, pipeline_service::parse_error::ParseError> {
    let mut out = t.clone();
    for (k, v) in scope {
        out = out.replace(&format!("${{{{ parameters.{} }}}}", k), v);
    }
    Ok(out)
}

fn scalar_scope_evaluators() -> pipeline_service::expansion::Evaluators<
    fn(&Bindings, &String) -> Result<bool, String>,
    fn(&Bindings, &String, &String) -> Result<Result<Vec<Bindings>, String>, String>,
    fn(&Bindings, &String) -> Result<String, pipeline_service::parse_error::ParseError>,
> {
    pipeline_service::expansion::Evaluators { condition: cond, collection: coll, substitute: subst }
}

#[test]
fn raw_template_content_by_top_level_key() {
    let e = engine();
    let file = YamlNode::Mapping(vec![
        (s("parameters"), YamlNode::Mapping(vec![(s("buildConfig"), s("Debug"))])),
        (s("steps"), YamlNode::Sequence(vec![YamlNode::Mapping(vec![(s("script"), s("echo ${{ parameters.buildConfig }}"))])])),
    ]);
    let raw = e.parse_raw_template_content("steps/build.yml", "text", &file, &read).unwrap();
    assert_eq!(raw.parameters.len(), 1);
    assert!(matches!(raw.content, RawTemplateContent::Steps(YamlNode::Sequence(ref items)) if items.len() == 1));

    let resolved = e
        .resolve_parameters(&raw.parameters, &passed(vec![]), "steps/build.yml")
        .unwrap();
    let scope: Vec<(String, String)> = texts(&resolved);
    match e.resolve_raw_template(&raw, &scope, &scalar_scope_evaluators()).unwrap() {
        RawTemplateContent::Steps(YamlNode::Sequence(items)) => match &items[0] {
            YamlNode::Mapping(es) => assert!(matches!(&es[0].1, YamlNode::String(t) if t == "echo Debug")),
            _ => panic!("expected a mapping"),
        },
        _ => panic!("expected steps"),
    }

    let pipeline = YamlNode::Mapping(vec![(s("name"), s("base"))]);
    match e.parse_raw_template_content("base.yml", "name: base", &pipeline, &read).unwrap().content {
        RawTemplateContent::Pipeline(t) => assert_eq!(t, "name: base"),
        _ => panic!("expected a pipeline"),
    }
    let err = e.parse_raw_template_content("bad.yml", "- x", &YamlNode::Sequence(vec![]), &read).unwrap_err();
    assert_eq!(err.message, "template error in 'bad.yml': template 'bad.yml' must be a YAML mapping");
}

#[test]
fn mismatched_values_are_written_as_yaml_values() {
    let e = engine();
    let declared = vec![param("flag", ParameterType::Boolean, None)];
    let err = e
        .resolve_parameters(&declared, &passed(vec![("flag", YamlNode::Number("1".into()))]), "t.yml")
        .unwrap_err();
    assert_eq!(err.message, "template error in 't.yml': parameter 'flag' expected type Boolean but got Number(1)");
    let list = YamlNode::Sequence(vec![s("a"), YamlNode::Bool(true)]);
    let err = e.resolve_parameters(&declared, &passed(vec![("flag", list)]), "t.yml").unwrap_err();
    assert_eq!(
        err.message,
        "template error in 't.yml': parameter 'flag' expected type Boolean but got Sequence [String(\"a\"), Bool(true)]"
    );
    let map = YamlNode::Mapping(vec![(s("k"), YamlNode::Null), (YamlNode::Number("2".into()), s("v"))]);
    let err = e.resolve_parameters(&declared, &passed(vec![("flag", map)]), "t.yml").unwrap_err();
    assert_eq!(
        err.message,
        "template error in 't.yml': parameter 'flag' expected type Boolean but got Mapping {\"k\": Null, 2: String(\"v\")}"
    );
}
