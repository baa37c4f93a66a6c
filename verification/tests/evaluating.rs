//! The evaluator on parsed programs and on hand-built trees, including the
//! operator arms no grammar production routes to.

use loq::interpreter::{EvalError, Interpreter};
use loq::lexer::{Lexer, Token};
use loq::parser::{ASTNode, Parser};

fn run(line: &str) -> Result<String, EvalError> {
    let lexer = Lexer::new(line);
    let mut parser = Parser::new(lexer);
    let nodes = parser.parse().unwrap();
    Interpreter::new().interpret(&nodes)
}

#[test]
fn addition_and_subtraction_are_left_associative() {
    assert_eq!(run("pn 10 - 3 - 4;").unwrap(), "3");
    assert_eq!(run("pn 1 + 2 + 3 + 4;").unwrap(), "10");
}

#[test]
fn negative_results_render_with_sign() {
    assert_eq!(run("pn 2 - 5;").unwrap(), "-3");
    assert_eq!(run("pnl 0 - 10;").unwrap(), "-10\n");
}

#[test]
fn zero_renders_as_zero() {
    assert_eq!(run("pn 0;").unwrap(), "0");
}

#[test]
fn large_values_render_exactly() {
    assert_eq!(run("pn 9223372036854775807;").unwrap(), "9223372036854775807");
}

#[test]
fn addition_overflow_is_an_error() {
    assert_eq!(run("pn 9223372036854775807 + 1;").unwrap_err(), EvalError::Overflow);
}

#[test]
fn declaration_value_is_the_expression() {
    assert_eq!(run("let n = 6 + 7; pnl n;").unwrap(), "13\n");
}

#[test]
fn multiplication_arm_works_on_hand_built_trees() {
    let tree = vec![ASTNode::Print(Box::new(ASTNode::BinaryOp {
        left: Box::new(ASTNode::Number(6)),
        operator: Token::Multiply,
        right: Box::new(ASTNode::Number(7)),
    }))];
    assert_eq!(Interpreter::new().interpret(&tree).unwrap(), "42");
}

#[test]
fn multiplication_overflow_is_an_error() {
    let tree = vec![ASTNode::Print(Box::new(ASTNode::BinaryOp {
        left: Box::new(ASTNode::Number(i64::MAX)),
        operator: Token::Multiply,
        right: Box::new(ASTNode::Number(2)),
    }))];
    assert_eq!(Interpreter::new().interpret(&tree).unwrap_err(), EvalError::Overflow);
}

#[test]
fn division_arm_truncates() {
    let tree = vec![ASTNode::Print(Box::new(ASTNode::BinaryOp {
        left: Box::new(ASTNode::Number(7)),
        operator: Token::Divide,
        right: Box::new(ASTNode::Number(2)),
    }))];
    assert_eq!(Interpreter::new().interpret(&tree).unwrap(), "3");
}

#[test]
fn division_by_zero_is_an_error() {
    let tree = vec![ASTNode::Print(Box::new(ASTNode::BinaryOp {
        left: Box::new(ASTNode::Number(1)),
        operator: Token::Divide,
        right: Box::new(ASTNode::Number(0)),
    }))];
    assert_eq!(
        Interpreter::new().interpret(&tree).unwrap_err(),
        EvalError::DivisionByZero
    );
}

#[test]
fn non_operator_token_is_an_error() {
    let tree = vec![ASTNode::Print(Box::new(ASTNode::BinaryOp {
        left: Box::new(ASTNode::Number(1)),
        operator: Token::Let,
        right: Box::new(ASTNode::Number(2)),
    }))];
    assert_eq!(
        Interpreter::new().interpret(&tree).unwrap_err(),
        EvalError::UnexpectedOperator(Token::Let)
    );
}

#[test]
fn declarations_yield_no_output() {
    assert_eq!(run("let q = 1 + 1;").unwrap(), "");
}

#[test]
fn output_accumulates_across_statements() {
    assert_eq!(run("pn 1; pnl 2; pn 3;").unwrap(), "12\n3");
}
