use pipeline_service::lexer::{extract_expressions, ExpressionType, Lexer, Token};

fn number_value(t: &Token) -> f64 {
    match t {
        Token::Number(n) => n.parse::<f64>().unwrap(),
        other => panic!("expected a number, got {:?}", other),
    }
}

#[test]
fn test_join() {
    // Can't directly test join without array support in the test helper
    // But the function is implemented
}

#[test]
fn test_lexer_simple_tokens() {
    let mut lexer = Lexer::new("+ - * / ( )");
    let tokens = lexer.tokenize().unwrap();

    assert_eq!(
        tokens,
        vec![
            Token::Plus,
            Token::Minus,
            Token::Star,
            Token::Slash,
            Token::LParen,
            Token::RParen,
            Token::Eof
        ]
    );
}

#[test]
fn test_lexer_comparison_operators() {
    let mut lexer = Lexer::new("== != < <= > >=");
    let tokens = lexer.tokenize().unwrap();

    assert_eq!(
        tokens,
        vec![
            Token::Eq,
            Token::Ne,
            Token::Lt,
            Token::Le,
            Token::Gt,
            Token::Ge,
            Token::Eof
        ]
    );
}

#[test]
fn test_lexer_logical_operators() {
    let mut lexer = Lexer::new("&& || !");
    let tokens = lexer.tokenize().unwrap();

    assert_eq!(tokens, vec![Token::And, Token::Or, Token::Not, Token::Eof]);
}

#[test]
fn test_lexer_string() {
    let mut lexer = Lexer::new("'hello world'");
    let tokens = lexer.tokenize().unwrap();

    assert_eq!(
        tokens,
        vec![Token::String("hello world".to_string()), Token::Eof]
    );
}

#[test]
fn test_lexer_escaped_string() {
    let mut lexer = Lexer::new("'it''s a test'");
    let tokens = lexer.tokenize().unwrap();

    assert_eq!(
        tokens,
        vec![Token::String("it's a test".to_string()), Token::Eof]
    );
}

#[test]
fn test_lexer_numbers() {
    let mut lexer = Lexer::new("42 3.14 0");
    let tokens = lexer.tokenize().unwrap();

    assert_eq!(tokens.len(), 4);
    assert_eq!(number_value(&tokens[0]), 42.0);
    assert_eq!(number_value(&tokens[1]), 3.14);
    assert_eq!(number_value(&tokens[2]), 0.0);
    assert_eq!(tokens[3], Token::Eof);
}

#[test]
fn test_lexer_identifiers() {
    let mut lexer = Lexer::new("foo bar_baz Build123");
    let tokens = lexer.tokenize().unwrap();

    assert_eq!(
        tokens,
        vec![
            Token::Identifier("foo".to_string()),
            Token::Identifier("bar_baz".to_string()),
            Token::Identifier("Build123".to_string()),
            Token::Eof
        ]
    );
}

#[test]
fn test_lexer_keywords() {
    let mut lexer = Lexer::new("null true false NULL TRUE FALSE");
    let tokens = lexer.tokenize().unwrap();

    assert_eq!(
        tokens,
        vec![
            Token::Null,
            Token::True,
            Token::False,
            Token::Null,
            Token::True,
            Token::False,
            Token::Eof
        ]
    );
}

#[test]
fn test_lexer_function_call() {
    let mut lexer = Lexer::new("eq(variables.foo, 'bar')");
    let tokens = lexer.tokenize().unwrap();

    assert_eq!(
        tokens,
        vec![
            Token::Identifier("eq".to_string()),
            Token::LParen,
            Token::Identifier("variables".to_string()),
            Token::Dot,
            Token::Identifier("foo".to_string()),
            Token::Comma,
            Token::String("bar".to_string()),
            Token::RParen,
            Token::Eof
        ]
    );
}

#[test]
fn test_lexer_complex_expression() {
    let mut lexer =
        Lexer::new("and(succeeded(), eq(variables['Build.SourceBranch'], 'refs/heads/main'))");
    let tokens = lexer.tokenize().unwrap();

    assert!(tokens.len() > 10);
    assert_eq!(tokens.first(), Some(&Token::Identifier("and".to_string())));
}

#[test]
fn test_extract_compile_time_expression() {
    let exprs = extract_expressions("${{ variables.foo }}");

    assert_eq!(
        exprs,
        vec![ExpressionType::CompileTime("variables.foo".to_string())]
    );
}

#[test]
fn test_extract_runtime_expression() {
    let exprs = extract_expressions("$[ succeeded() ]");

    assert_eq!(
        exprs,
        vec![ExpressionType::Runtime("succeeded()".to_string())]
    );
}

#[test]
fn test_extract_macro() {
    let exprs = extract_expressions("$(Build.SourceBranch)");

    assert_eq!(
        exprs,
        vec![ExpressionType::Macro("Build.SourceBranch".to_string())]
    );
}

#[test]
fn test_extract_mixed() {
    let exprs =
        extract_expressions("Branch: $(Build.SourceBranch) - Config: ${{ variables.config }}");

    assert_eq!(
        exprs,
        vec![
            ExpressionType::Text("Branch: ".to_string()),
            ExpressionType::Macro("Build.SourceBranch".to_string()),
            ExpressionType::Text(" - Config: ".to_string()),
            ExpressionType::CompileTime("variables.config".to_string()),
        ]
    );
}

#[test]
fn test_extract_nested_macro() {
    let exprs = extract_expressions("$(variables[Build.Configuration])");

    assert_eq!(
        exprs,
        vec![ExpressionType::Macro(
            "variables[Build.Configuration]".to_string()
        )]
    );
}

#[test]
fn lexer_reports_unterminated_string() {
    let mut lexer = Lexer::new("'open");
    let err = lexer.tokenize().unwrap_err();
    assert!(err.to_display_string().starts_with("lex error at position "));
}

#[test]
fn tokens_display_as_written() {
    assert_eq!(Token::String("a b".to_string()).to_display_string(), "'a b'");
    assert_eq!(Token::LBrace.to_display_string(), "{");
    assert_eq!(Token::Eof.to_display_string(), "EOF");
    assert_eq!(Token::Number("3.5".to_string()).to_display_string(), "3.5");
}

#[test]
fn plain_text_is_one_piece() {
    assert_eq!(
        extract_expressions("no expressions here"),
        vec![ExpressionType::Text("no expressions here".to_string())]
    );
}

fn written_back(pieces: &[ExpressionType]) -> String {
    pieces
        .iter()
        .map(|p| match p {
            ExpressionType::Text(t) => t.clone(),
            ExpressionType::CompileTime(e) => format!("${{{{{}}}}}", e),
            ExpressionType::Runtime(e) => format!("$[{}]", e),
            ExpressionType::Macro(e) => format!("$({})", e),
        })
        .collect()
}

#[test]
fn shell_variables_and_unclosed_expressions_stay_text() {
    assert_eq!(extract_expressions("echo ${HOME}"), vec![ExpressionType::Text("echo ${HOME}".to_string())]);
    assert_eq!(extract_expressions("$(abc"), vec![ExpressionType::Text("$(abc".to_string())]);
    assert_eq!(
        extract_expressions("a ${{ x"),
        vec![ExpressionType::Text("a ${{ x".to_string())]
    );
    assert_eq!(
        extract_expressions("$[ x $(y)"),
        vec![ExpressionType::Text("$[ x ".to_string()), ExpressionType::Macro("y".to_string())]
    );
}

#[test]
fn extracted_pieces_are_well_formed_and_write_back() {
    let input = "run ${{parameters.a}} then $[variables.b] and $(c) $d";
    let pieces = extract_expressions(input);
    assert_eq!(
        pieces,
        vec![
            ExpressionType::Text("run ".to_string()),
            ExpressionType::CompileTime("parameters.a".to_string()),
            ExpressionType::Text(" then ".to_string()),
            ExpressionType::Runtime("variables.b".to_string()),
            ExpressionType::Text(" and ".to_string()),
            ExpressionType::Macro("c".to_string()),
            ExpressionType::Text(" $d".to_string()),
        ]
    );
    for w in pieces.windows(2) {
        assert!(!matches!((&w[0], &w[1]), (ExpressionType::Text(_), ExpressionType::Text(_))));
    }
    assert_eq!(written_back(&pieces), input);
}

#[test]
fn extracted_expressions_come_trimmed() {
    let pieces = extract_expressions("${{  a  }}$(\tb )");
    assert_eq!(
        pieces,
        vec![ExpressionType::CompileTime("a".to_string()), ExpressionType::Macro("b".to_string())]
    );
}

#[test]
fn keywords_in_mixed_case() {
    let mut lexer = Lexer::new("True nUll fAlSe truex");
    let tokens = lexer.tokenize().unwrap();
    assert_eq!(
        tokens,
        vec![Token::True, Token::Null, Token::False, Token::Identifier("truex".to_string()), Token::Eof]
    );
}

#[test]
fn unicode_whitespace_separates_tokens() {
    let mut lexer = Lexer::new("a\u{3000}b\u{a0}c");
    let tokens = lexer.tokenize().unwrap();
    assert_eq!(
        tokens,
        vec![
            Token::Identifier("a".to_string()),
            Token::Identifier("b".to_string()),
            Token::Identifier("c".to_string()),
            Token::Eof
        ]
    );
}
