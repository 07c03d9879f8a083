use simia_vm::ast::Ast;
use simia_vm::eval::eval;
use simia_vm::lexer::Lexer;
use simia_vm::object::Object;
use simia_vm::parser::Parser;

fn parse(input: &str) -> (Ast, Vec<String>) {
    let lexer = Lexer::new(input.to_string());
    let mut parser = Parser::new(lexer);
    let program = parser.parse_program().unwrap();
    (program, parser.errors)
}

#[test]
fn test_render_round_trip() {
    let tests = [
        "if(true){ true } else{ false }",
        "fn(a,b){ return true; }",
        "[1,2,3,4]",
        "add(a,b)",
        "[a,b][0]",
        "(1 + (2 * 3))",
        "let foo = (1 + 2);",
    ];

    for test in tests.iter() {
        let (program, errors) = parse(test);
        assert!(errors.is_empty());
        assert_eq!(program.inspect(), test.to_string());
    }
}

#[test]
fn test_error_recovery_keeps_later_statement() {
    // One malformed let statement, then one valid expression statement.
    let (program, errors) = parse("let 5; foo");

    assert!(errors.len() > 0);
    assert_eq!(
        errors[0],
        "expected next token to be Identifier, got Integer instead".to_string()
    );

    if let Ast::Program { ref statements } = program {
        let last = statements.last().expect("valid statement was dropped");
        if let Ast::ExpressionStatement { ref expression } = **last {
            if let Ast::Identifier { ref value } = **expression {
                assert_eq!(**value, "foo".to_string());
            } else {
                panic!("recovered statement is not the identifier");
            }
        } else {
            panic!("recovered statement is not an expression statement");
        }
    } else {
        panic!("parse did not produce a program");
    }
}

#[test]
fn test_diagnostics_idempotent() {
    let input = "let = 5; if(true { 1 } @";

    let (_, first) = parse(input);
    let (_, second) = parse(input);

    assert!(first.len() > 0);
    assert_eq!(first, second);
}

#[test]
fn test_no_prefix_diagnostic() {
    let (_, errors) = parse(")");

    assert_eq!(errors.len(), 1);
    assert_eq!(errors[0], "no prefix parse function for Rparen found".to_string());
}

#[test]
fn test_missing_list_closer_fails_list() {
    // An unterminated array literal is rejected, not returned empty.
    let (program, errors) = parse("[1, 2");
    assert!(errors.iter().any(|e| e
        == &"expected next token to be Rbracket, got Eof instead".to_string()));
    assert_eq!(program.inspect(), "".to_string());

    // An unterminated argument list fails the call expression.
    let (program, errors) = parse("add(a, b");
    assert!(errors.iter().any(|e| e
        == &"expected next token to be Rparen, got Eof instead".to_string()));
    assert_eq!(program.inspect(), "".to_string());
}

#[test]
fn test_brace_does_not_open_an_expression() {
    let (_, errors) = parse("{ 1 }");
    assert!(errors.len() > 0);
    assert_eq!(errors[0], "no prefix parse function for Lbrace found".to_string());
}

#[test]
fn test_missing_close_paren_diagnostic() {
    let (_, errors) = parse("(1 + 2");

    assert!(errors.iter().any(|e| e
        == &"expected next token to be Rparen, got Eof instead".to_string()));
}

fn eval_text(input: &str) -> Object {
    let (program, _) = parse(input);
    eval(program)
}

#[test]
fn test_division_truncates_toward_zero() {
    let tests = [("9 / 2", 4), ("-9 / 2", -4), ("9 / -2", -4), ("-9 / -2", 4), ("0 / 5", 0)];

    for test in &tests {
        match eval_text(test.0) {
            Object::Integer { value } => assert_eq!(value, test.1),
            other => panic!("object is not Integer. got={}", other.kind()),
        }
    }
}

#[test]
fn test_division_by_zero_is_null() {
    match eval_text("5 / 0") {
        Object::Null => {},
        other => panic!("object is not Null. got={}", other.kind()),
    }
}

#[test]
fn test_unhandled_nodes_evaluate_to_null() {
    let tests = ["if(true){ 1 }", "[1,2]", "add(a,b)", "foo", "\"bar\"", "true + 1", "let a = 1;"];

    for test in tests.iter() {
        match eval_text(test) {
            Object::Null => {},
            other => panic!("object is not Null. got={}", other.kind()),
        }
    }
}

#[test]
fn test_empty_program_evaluates_to_null() {
    match eval_text("") {
        Object::Null => {},
        other => panic!("object is not Null. got={}", other.kind()),
    }
}

#[test]
fn test_object_inspect() {
    assert_eq!((Object::Integer { value: -5 }).inspect(), "-5".to_string());
    assert_eq!((Object::Integer { value: 120 }).inspect(), "120".to_string());
    assert_eq!((Object::Boolean { value: true }).inspect(), "true".to_string());
    assert_eq!(Object::Null.inspect(), "null".to_string());
    assert_eq!(Object::Null.kind(), "Null".to_string());
    assert_eq!((Object::Integer { value: 0 }).kind(), "Integer".to_string());
    assert_eq!((Object::Boolean { value: false }).kind(), "Boolean".to_string());
}

#[test]
fn test_integer_literal_overflow_yields_no_expression() {
    // The literal does not fit a 64-bit integer, so no expression is
    // built; the statement is skipped without a diagnostic.
    let (program, errors) = parse("99999999999999999999");

    assert!(errors.is_empty());
    assert_eq!(program.inspect(), "".to_string());

    let (program, errors) = parse("9223372036854775807");
    assert!(errors.is_empty());
    assert_eq!(program.inspect(), "9223372036854775807".to_string());
}

#[test]
fn test_negation_of_i64_min_wraps() {
    match eval_text("-9223372036854775807 - 1") {
        Object::Integer { value } => assert_eq!(value, i64::MIN),
        other => panic!("object is not Integer. got={}", other.kind()),
    }
}
