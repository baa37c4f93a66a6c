//! End-to-end scenarios: one line of text through the lexer, the parser and
//! the interpreter.

use loq::interpreter::{EvalError, Interpreter};
use loq::lexer::{Lexer, Token};
use loq::parser::{ASTNode, ParseError, Parser};

fn parse_line(line: &str) -> Result<Vec<ASTNode>, ParseError> {
    let lexer = Lexer::new(line);
    let mut parser = Parser::new(lexer);
    parser.parse()
}

#[test]
fn let_binding_with_sum_prints_line() {
    let mut interp = Interpreter::new();
    let nodes = parse_line("let x = 1 + 2; pnl x;").unwrap();
    let out = interp.interpret(&nodes).unwrap();
    assert_eq!(out, "3\n");
    // The binding persists in the environment.
    let again = parse_line("pn x;").unwrap();
    assert_eq!(interp.interpret(&again).unwrap(), "3");
}

#[test]
fn print_without_newline() {
    let mut interp = Interpreter::new();
    let nodes = parse_line("pn 5 - 2;").unwrap();
    assert_eq!(interp.interpret(&nodes).unwrap(), "3");
}

#[test]
fn redeclaration_last_wins() {
    let mut interp = Interpreter::new();
    let nodes = parse_line("let x = 5; let x = 7; pnl x;").unwrap();
    assert_eq!(interp.interpret(&nodes).unwrap(), "7\n");
}

#[test]
fn undefined_variable_fails() {
    let mut interp = Interpreter::new();
    let nodes = parse_line("pnl y;").unwrap();
    let err = interp.interpret(&nodes).unwrap_err();
    assert_eq!(err, EvalError::UndefinedVariable(String::from("y")));
}

#[test]
fn missing_terminator_fails() {
    let err = parse_line("let x = 1").unwrap_err();
    assert_eq!(
        err,
        ParseError::ExpectedToken { expected: Token::Semicolon, found: Token::EOF }
    );
}

#[test]
fn print_statement_twice_same_output() {
    let mut interp = Interpreter::new();
    let setup = parse_line("let x = 2;").unwrap();
    interp.interpret(&setup).unwrap();
    let stmt = parse_line("pnl x;").unwrap();
    let first = interp.interpret(&stmt).unwrap();
    let second = interp.interpret(&stmt).unwrap();
    assert_eq!(first, "2\n");
    assert_eq!(second, "2\n");
}

#[test]
fn empty_line_is_an_empty_program() {
    let mut interp = Interpreter::new();
    let nodes = parse_line("").unwrap();
    assert_eq!(nodes, Vec::new());
    assert_eq!(interp.interpret(&nodes).unwrap(), "");
}

#[test]
fn expression_statement_prints_nothing() {
    let mut interp = Interpreter::new();
    let nodes = parse_line("5;").unwrap();
    assert_eq!(interp.interpret(&nodes).unwrap(), "");
}

#[test]
fn variable_cannot_join_arithmetic() {
    // An identifier in expression position returns at once, so the `+`
    // after it is a stray token where `;` was demanded.
    let err = parse_line("let x = 1; x + 1;").unwrap_err();
    assert_eq!(
        err,
        ParseError::ExpectedToken { expected: Token::Semicolon, found: Token::Plus }
    );
}

#[test]
fn let_requires_identifier() {
    let err = parse_line("let 5 = 3;").unwrap_err();
    assert_eq!(err, ParseError::ExpectedIdentifier { found: Token::Number(5) });
}

#[test]
fn stray_semicolon_is_unexpected() {
    let err = parse_line(";").unwrap_err();
    assert_eq!(err, ParseError::UnexpectedToken { found: Token::Semicolon });
}

#[test]
fn bindings_before_a_failure_survive() {
    let mut interp = Interpreter::new();
    let nodes = parse_line("let a = 1; pnl b;").unwrap();
    let err = interp.interpret(&nodes).unwrap_err();
    assert_eq!(err, EvalError::UndefinedVariable(String::from("b")));
    // The session continues: the earlier binding is still there.
    let again = parse_line("pnl a;").unwrap();
    assert_eq!(interp.interpret(&again).unwrap(), "1\n");
}
