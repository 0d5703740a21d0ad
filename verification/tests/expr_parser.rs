use pipeline_service::expr_parser::{BinaryOp, Expr, ExprParser, ReferencePart, UnaryOp};
use pipeline_service::lexer::{Lexer, Token};

fn number_value(e: &Expr) -> f64 {
    match e {
        Expr::Number(n) => n.parse::<f64>().unwrap(),
        other => panic!("expected a number, got {:?}", other),
    }
}

#[test]
fn test_parse_literals() {
    assert_eq!(ExprParser::parse_str("null").unwrap(), Expr::Null);
    assert_eq!(ExprParser::parse_str("true").unwrap(), Expr::Bool(true));
    assert_eq!(ExprParser::parse_str("false").unwrap(), Expr::Bool(false));
    assert_eq!(number_value(&ExprParser::parse_str("42").unwrap()), 42.0);
    assert_eq!(
        ExprParser::parse_str("'hello'").unwrap(),
        Expr::String("hello".to_string())
    );
}

#[test]
fn test_parse_reference() {
    let expr = ExprParser::parse_str("variables.foo").unwrap();
    assert!(matches!(expr, Expr::Reference(_)));

    if let Expr::Reference(r) = expr {
        assert_eq!(r.parts.len(), 2);
        assert_eq!(r.parts[0], ReferencePart::Property("variables".to_string()));
        assert_eq!(r.parts[1], ReferencePart::Property("foo".to_string()));
    }
}

#[test]
fn test_parse_index_access() {
    let expr = ExprParser::parse_str("variables['foo']").unwrap();
    assert!(matches!(expr, Expr::Reference(_)));
}

#[test]
fn test_parse_function_call() {
    let expr = ExprParser::parse_str("eq(a, b)").unwrap();

    if let Expr::FunctionCall { name, args } = expr {
        assert_eq!(name, "eq");
        assert_eq!(args.len(), 2);
    } else {
        panic!("expected function call");
    }
}

#[test]
fn test_parse_nested_function_call() {
    let expr = ExprParser::parse_str("and(eq(a, b), contains(c, 'd'))").unwrap();

    if let Expr::FunctionCall { name, args } = expr {
        assert_eq!(name, "and");
        assert_eq!(args.len(), 2);
    } else {
        panic!("expected function call");
    }
}

#[test]
fn test_parse_binary_operators() {
    let expr = ExprParser::parse_str("a == b").unwrap();
    assert!(matches!(expr, Expr::Binary { op: BinaryOp::Eq, .. }));

    let expr = ExprParser::parse_str("a && b").unwrap();
    assert!(matches!(expr, Expr::Binary { op: BinaryOp::And, .. }));

    let expr = ExprParser::parse_str("a || b").unwrap();
    assert!(matches!(expr, Expr::Binary { op: BinaryOp::Or, .. }));
}

#[test]
fn test_parse_unary_not() {
    let expr = ExprParser::parse_str("!succeeded()").unwrap();
    assert!(matches!(expr, Expr::Unary { op: UnaryOp::Not, .. }));
}

#[test]
fn test_parse_ternary() {
    let expr = ExprParser::parse_str("condition ? 'yes' : 'no'").unwrap();
    assert!(matches!(expr, Expr::Ternary { .. }));
}

#[test]
fn test_parse_array() {
    let expr = ExprParser::parse_str("[1, 2, 3]").unwrap();

    if let Expr::Array(items) = expr {
        assert_eq!(items.len(), 3);
    } else {
        panic!("expected array");
    }
}

#[test]
fn test_parse_complex_expression() {
    let expr = ExprParser::parse_str(
        "and(succeeded(), eq(variables['Build.SourceBranch'], 'refs/heads/main'))",
    )
    .unwrap();

    if let Expr::FunctionCall { name, args } = expr {
        assert_eq!(name, "and");
        assert_eq!(args.len(), 2);
    } else {
        panic!("expected function call");
    }
}

#[test]
fn test_parse_operator_precedence() {
    // && binds tighter than ||
    let expr = ExprParser::parse_str("a || b && c").unwrap();

    if let Expr::Binary { op: BinaryOp::Or, right, .. } = expr {
        assert!(matches!(*right, Expr::Binary { op: BinaryOp::And, .. }));
    } else {
        panic!("expected or expression");
    }
}

#[test]
fn test_parse_arithmetic() {
    let expr = ExprParser::parse_str("1 + 2 * 3").unwrap();

    if let Expr::Binary { op: BinaryOp::Add, right, .. } = expr {
        assert!(matches!(*right, Expr::Binary { op: BinaryOp::Mul, .. }));
    } else {
        panic!("expected add expression");
    }
}

#[test]
fn test_parse_parentheses() {
    let expr = ExprParser::parse_str("(1 + 2) * 3").unwrap();

    if let Expr::Binary { op: BinaryOp::Mul, left, .. } = expr {
        assert!(matches!(*left, Expr::Binary { op: BinaryOp::Add, .. }));
    } else {
        panic!("expected mul expression");
    }
}

#[test]
fn parser_method_call_becomes_function_call() {
    let expr = ExprParser::parse_str("'abc'.contains('b')").unwrap();
    if let Expr::FunctionCall { name, args } = expr {
        assert_eq!(name, "contains");
        assert_eq!(args.len(), 2);
        assert_eq!(args[0], Expr::String("abc".to_string()));
        assert_eq!(args[1], Expr::String("b".to_string()));
    } else {
        panic!("expected function call");
    }
    // after a bare name, `.name` parts belong to the reference, so a call
    // there is not a method call
    let err = ExprParser::parse_str("parameters.items.contains('x')").unwrap_err();
    assert_eq!(err.message, "unexpected token: LParen");
    assert_eq!(err.position, 5);
    let expr = ExprParser::parse_str("(a).b").unwrap();
    assert!(matches!(expr, Expr::Member { .. }));
}

#[test]
fn parser_object_literal_and_trailing_commas() {
    let expr = ExprParser::parse_str("{ a: 1, 'b': [true, false,], }").unwrap();
    if let Expr::Object(entries) = expr {
        assert_eq!(entries.len(), 2);
        assert_eq!(entries[0].key, "a");
        assert_eq!(entries[1].key, "b");
        assert!(matches!(&entries[1].value, Expr::Array(items) if items.len() == 2));
    } else {
        panic!("expected object");
    }
    assert_eq!(ExprParser::parse_str("f(a, b,)").unwrap(), ExprParser::parse_str("f(a, b)").unwrap());
}

#[test]
fn parser_unary_minus_and_chains() {
    let expr = ExprParser::parse_str("-a - b - c").unwrap();
    // left-associative: (( -a - b) - c)
    if let Expr::Binary { op: BinaryOp::Sub, left, .. } = expr {
        if let Expr::Binary { op: BinaryOp::Sub, left: inner, .. } = *left {
            assert!(matches!(*inner, Expr::Unary { op: UnaryOp::Neg, .. }));
        } else {
            panic!("expected nested subtraction");
        }
    } else {
        panic!("expected subtraction");
    }
}

#[test]
fn parser_errors_report_message_and_position() {
    let err = ExprParser::parse_str("eq(a, b").unwrap_err();
    assert_eq!(err.message, "expected ')'");
    assert_eq!(err.position, 5);

    let err = ExprParser::parse_str("a b").unwrap_err();
    assert_eq!(err.message, "unexpected token: Identifier(\"b\")");
    assert_eq!(err.position, 1);

    let err = ExprParser::parse_str("a.").unwrap_err();
    assert_eq!(err.message, "expected property name after '.'");
    assert_eq!(err.position, 3);

    let err = ExprParser::parse_str("a ? b").unwrap_err();
    assert_eq!(err.message, "expected ':' in ternary expression");
    assert_eq!(err.position, 3);

    let err = ExprParser::parse_str("{ 1: 2 }").unwrap_err();
    assert_eq!(err.message, "expected object key");
    assert_eq!(err.position, 2);

    let err = ExprParser::parse_str(")").unwrap_err();
    assert_eq!(err.message, "unexpected token: RParen");
    assert_eq!(err.to_display_string(), "parse error at position 0: unexpected token: RParen");

    // lexer errors keep their message and position
    let err = ExprParser::parse_str("a & b").unwrap_err();
    assert_eq!(err.message, "expected '&&' operator");
    assert_eq!(err.position, 2);
}

#[test]
fn parser_parse_from_tokens() {
    let mut lexer = Lexer::new("x[0].y");
    let tokens = lexer.tokenize().unwrap();
    assert_eq!(tokens.last(), Some(&Token::Eof));
    let mut parser = ExprParser::new(tokens);
    let expr = parser.parse().unwrap();
    if let Expr::Reference(r) = expr {
        assert_eq!(r.parts.len(), 3);
        assert!(matches!(&r.parts[1], ReferencePart::Index(_)));
        assert_eq!(r.parts[2], ReferencePart::Property("y".to_string()));
    } else {
        panic!("expected reference");
    }
    assert_eq!(BinaryOp::Le.to_display_string(), "<=");
    assert_eq!(BinaryOp::Or.to_display_string(), "||");
}
