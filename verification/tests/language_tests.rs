use cang::lexer::TokenTypes;
use cang::{eval, eval_with_output, tokenize, Env, ParseError, Parser, ValidationError};

fn parse(src: &str) -> Result<cang::Expr, ParseError> {
    let tokens = tokenize(src);
    let mut parser = Parser::new(tokens);
    parser.parse_program()
}

fn run(src: &str, env: &mut Env) -> Result<i64, ValidationError> {
    let ast = parse(src).unwrap();
    eval(&ast, env)
}

fn runtime_message(r: Result<i64, ValidationError>) -> String {
    match r {
        Err(ValidationError::RuntimeError(m)) => m,
        other => panic!("expected a runtime error, got {:?}", other),
    }
}

#[test]
fn test_tokenize_kinds_and_values() {
    let tokens = tokenize("let x = 5");
    let kinds: Vec<TokenTypes> = tokens.iter().map(|t| t.token_type).collect();
    assert_eq!(
        kinds,
        vec![
            TokenTypes::Let,
            TokenTypes::Identifier,
            TokenTypes::Eq,
            TokenTypes::Number
        ]
    );
    assert_eq!(tokens[0].value, Some("let".to_string()));
    assert_eq!(tokens[1].value, Some("x".to_string()));
    assert_eq!(tokens[2].value, None);
    assert_eq!(tokens[3].value, Some("5".to_string()));
}

#[test]
fn test_tokenize_positions() {
    let tokens = tokenize("1 + 2\n34");
    assert_eq!(tokens[0].pos, (1, 1));
    assert_eq!(tokens[1].pos, (1, 3));
    assert_eq!(tokens[2].pos, (1, 5));
    assert_eq!(tokens[3].pos, (2, 2));
}

#[test]
fn test_tokenize_string_escapes() {
    let tokens = tokenize("\"a\\nb\\t\\\\\\\"c\\qd\"");
    assert_eq!(tokens.len(), 1);
    assert_eq!(tokens[0].token_type, TokenTypes::String);
    assert_eq!(tokens[0].value, Some("a\nb\t\\\"c\\qd".to_string()));
}

#[test]
fn test_tokenize_unterminated_string() {
    let tokens = tokenize("\"abc");
    assert_eq!(tokens.len(), 1);
    assert_eq!(tokens[0].token_type, TokenTypes::String);
    assert_eq!(tokens[0].value, Some("abc".to_string()));
}

#[test]
fn test_tokenize_skips_unknown_characters() {
    let tokens = tokenize("@ 1 #");
    assert_eq!(tokens.len(), 1);
    assert_eq!(tokens[0].token_type, TokenTypes::Number);
}

#[test]
fn test_keywords_versus_identifiers() {
    let tokens = tokenize("fn print let lettuce printx");
    let kinds: Vec<TokenTypes> = tokens.iter().map(|t| t.token_type).collect();
    assert_eq!(
        kinds,
        vec![
            TokenTypes::Fn,
            TokenTypes::Print,
            TokenTypes::Let,
            TokenTypes::Identifier,
            TokenTypes::Identifier
        ]
    );
}

#[test]
fn test_precedence() {
    let mut env = Env::new();
    assert_eq!(run("2 + 3 * 4", &mut env).unwrap(), 14);
    assert_eq!(run("(2 + 3) * 4", &mut env).unwrap(), 20);
}

#[test]
fn test_division_truncates() {
    let mut env = Env::new();
    assert_eq!(run("7 / 2", &mut env).unwrap(), 3);
    assert_eq!(run("(0 - 7) / 2", &mut env).unwrap(), -3);
    assert_eq!(run("0 - 7", &mut env).unwrap(), -7);
}

#[test]
fn test_division_by_zero() {
    let mut env = Env::new();
    assert_eq!(runtime_message(run("1 / 0", &mut env)), "Division by zero");
}

#[test]
fn test_addition_wraps() {
    let mut env = Env::new();
    assert_eq!(
        run("9223372036854775807 + 1", &mut env).unwrap(),
        i64::MIN
    );
}

#[test]
fn test_let_persistence() {
    let mut env = Env::new();
    assert_eq!(run("let x = 5", &mut env).unwrap(), 5);
    assert_eq!(run("x + 1", &mut env).unwrap(), 6);
}

#[test]
fn test_snapshot_scoping() {
    // The surface grammar keeps function bodies to a single expression, so
    // the callee that binds its own variable is built as a tree directly:
    // fn f(a) { let b = a + 1; b } followed by f(10).
    let mut env = Env::new();
    let body = cang::Expr::Block(vec![
        cang::Expr::Let(
            "b".to_string(),
            Box::new(cang::Expr::Binary(
                Box::new(cang::Expr::Var("a".to_string())),
                TokenTypes::Plus,
                Box::new(cang::Expr::Number(1)),
            )),
        ),
        cang::Expr::Var("b".to_string()),
    ]);
    let def = cang::Expr::FnDef("f".to_string(), vec!["a".to_string()], Box::new(body));
    eval(&def, &mut env).unwrap();

    let call = cang::Expr::FnCall("f".to_string(), vec![cang::Expr::Number(10)]);
    assert_eq!(eval(&call, &mut env).unwrap(), 11);

    // The callee's let never escaped back to the session environment.
    assert!(env.get("b").is_none());
    assert_eq!(runtime_message(run("b", &mut env)), "Undefined variable 'b'");
}

#[test]
fn test_arity_mismatch() {
    let mut env = Env::new();
    run("fn add(a,b){a+b}", &mut env).unwrap();
    assert_eq!(
        runtime_message(run("add(1)", &mut env)),
        "Function 'add' expects 2 arguments, got 1"
    );
}

#[test]
fn test_function_call_and_shadowing() {
    let mut env = Env::new();
    run("let x = 100", &mut env).unwrap();
    run("fn double(n) { n * 2 }", &mut env).unwrap();
    assert_eq!(run("double(21)", &mut env).unwrap(), 42);
    // The callee saw the caller's bindings, but its parameter never escaped.
    assert_eq!(run("x", &mut env).unwrap(), 100);
    assert!(env.get("n").is_none());
}

#[test]
fn test_undefined_function() {
    let mut env = Env::new();
    assert_eq!(
        runtime_message(run("nope(1)", &mut env)),
        "Undefined function 'nope'"
    );
}

#[test]
fn test_function_used_as_variable() {
    let mut env = Env::new();
    run("fn f(a){a}", &mut env).unwrap();
    assert_eq!(
        runtime_message(run("f", &mut env)),
        "Cannot use function 'f' as a variable. Did you mean to call it with parentheses?"
    );
}

#[test]
fn test_block_value_is_last_statement() {
    let mut env = Env::new();
    assert_eq!(run("1; 2; 3", &mut env).unwrap(), 3);
}

#[test]
fn test_missing_semicolon_truncates_program() {
    let mut env = Env::new();
    // A statement followed by more tokens without ';' ends parsing there.
    assert_eq!(run("1 2", &mut env).unwrap(), 1);
}

#[test]
fn test_string_literal_evaluates_to_zero() {
    let mut env = Env::new();
    assert_eq!(run("\"hello\"", &mut env).unwrap(), 0);
}

#[test]
fn test_print_collects_output() {
    let mut env = Env::new();
    let mut output: Vec<String> = Vec::new();
    let ast = parse("print(\"Hello World\"); print(2 + 3); let v = 7; print(v)").unwrap();
    let result = eval_with_output(&ast, &mut env, &mut output).unwrap();
    assert_eq!(result, 0);
    assert_eq!(output, vec!["Hello World", "5", "7"]);
}

#[test]
fn test_print_undefined_variable() {
    let mut env = Env::new();
    let ast = parse("print(q)").unwrap();
    let mut output: Vec<String> = Vec::new();
    match eval_with_output(&ast, &mut env, &mut output) {
        Err(ValidationError::RuntimeError(m)) => assert_eq!(m, "Undefined variable: q"),
        other => panic!("unexpected {:?}", other),
    }
    assert!(output.is_empty());
}

#[test]
fn test_parse_error_expected_closing_paren() {
    match parse("(1") {
        Err(ParseError::ExpectedToken(m)) => assert_eq!(m, "closing parenthesis"),
        other => panic!("unexpected {:?}", other),
    }
}

#[test]
fn test_parse_error_unexpected_eof() {
    match parse("1 +") {
        Err(ParseError::UnexpectedEof) => {}
        other => panic!("unexpected {:?}", other),
    }
}

#[test]
fn test_parse_error_let_needs_identifier() {
    match parse("let 5 = 1") {
        Err(ParseError::ExpectedToken(m)) => assert_eq!(m, "identifier after 'let'"),
        other => panic!("unexpected {:?}", other),
    }
}

#[test]
fn test_parse_error_unexpected_token_describes_it() {
    match parse("*") {
        Err(e @ ParseError::UnexpectedToken(_)) => {
            let message = e.message();
            assert_eq!(message, "Unexpected token: Star at line 1, column 1");
        }
        other => panic!("unexpected {:?}", other),
    }
}

#[test]
fn test_parse_error_message_rendering() {
    let e = parse("(1").unwrap_err();
    assert_eq!(e.message(), "Expected: closing parenthesis");
    let eof = parse("1 +").unwrap_err();
    assert_eq!(eof.message(), "Unexpected end of input");
}

#[test]
fn test_env_snapshot_is_independent() {
    let mut env = Env::new();
    env.insert("x".to_string(), cang::Expr::Number(1));
    let snapshot = env.clone();
    env.insert("x".to_string(), cang::Expr::Number(2));
    match snapshot.get("x") {
        Some(cang::Expr::Number(n)) => assert_eq!(*n, 1),
        other => panic!("unexpected {:?}", other),
    }
    match env.get("x") {
        Some(cang::Expr::Number(n)) => assert_eq!(*n, 2),
        other => panic!("unexpected {:?}", other),
    }
}

#[test]
fn test_empty_program_evaluates_to_zero() {
    let mut env = Env::new();
    assert_eq!(run("", &mut env).unwrap(), 0);
}

#[test]
fn test_dynamic_scoping_sees_bindings_at_call_time() {
    let mut env = Env::new();
    run("fn addy(x) { x + y }", &mut env).unwrap();
    // y is looked up when addy runs, not when it was defined.
    assert_eq!(
        runtime_message(run("addy(2)", &mut env)),
        "Undefined variable 'y'"
    );
    run("let y = 5", &mut env).unwrap();
    assert_eq!(run("addy(2)", &mut env).unwrap(), 7);
    run("let y = 100", &mut env).unwrap();
    assert_eq!(run("addy(2)", &mut env).unwrap(), 102);
}

#[test]
fn test_nested_print() {
    // print is a statement in the surface grammar, so the nested form is
    // built as a tree: the inner print writes its line first, then the
    // outer one prints the inner result, which is zero.
    let mut env = Env::new();
    let mut output: Vec<String> = Vec::new();
    let ast = cang::Expr::Print(Box::new(cang::Expr::Print(Box::new(cang::Expr::Number(1)))));
    assert_eq!(eval_with_output(&ast, &mut env, &mut output).unwrap(), 0);
    assert_eq!(output, vec!["1", "0"]);
}

#[test]
fn test_nested_function_calls() {
    let mut env = Env::new();
    run("fn inc(n) { n + 1 }", &mut env).unwrap();
    run("fn twice(n) { inc(inc(n)) }", &mut env).unwrap();
    assert_eq!(run("twice(40)", &mut env).unwrap(), 42);
}
