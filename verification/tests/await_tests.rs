use vex_codegen::ast::{BinaryOp, Block, Expression, Statement};
use vex_codegen::await_scan::{count_await_in_expression, count_await_in_statement, count_await_points};

fn ident(name: &str) -> Expression {
    Expression::Ident(name.to_string())
}

fn await_of(e: Expression) -> Expression {
    Expression::Await(Box::new(e))
}

#[test]
fn test_count_simple_await() {
    let expr = Expression::Await(Box::new(Expression::Ident("future".to_string())));
    assert_eq!(count_await_in_expression(&expr), 1);
}

#[test]
fn test_count_nested_await() {
    let inner = Expression::Await(Box::new(Expression::Ident("f1".to_string())));
    let outer = Expression::Await(Box::new(inner));
    assert_eq!(count_await_in_expression(&outer), 2);
}

#[test]
fn test_count_binary_with_await() {
    let left = Expression::Await(Box::new(Expression::Ident("f1".to_string())));
    let right = Expression::Await(Box::new(Expression::Ident("f2".to_string())));
    let binary = Expression::Binary {
        span_id: None,
        left: Box::new(left),
        op: BinaryOp::Add,
        right: Box::new(right),
    };
    assert_eq!(count_await_in_expression(&binary), 2);
}

#[test]
fn sleep_call_counts_as_suspension_point() {
    let call = Expression::Call {
        span_id: None,
        func: Box::new(ident("async_sleep")),
        type_args: vec![],
        args: vec![Expression::IntLiteral(10)],
    };
    assert_eq!(count_await_in_expression(&call), 1);
    let other = Expression::Call {
        span_id: None,
        func: Box::new(ident("sleep")),
        type_args: vec![],
        args: vec![await_of(ident("f"))],
    };
    assert_eq!(count_await_in_expression(&other), 1);
}

#[test]
fn literals_have_no_suspension_point() {
    assert_eq!(count_await_in_expression(&Expression::IntLiteral(3)), 0);
    assert_eq!(count_await_in_expression(&ident("x")), 0);
}

#[test]
fn statements_and_blocks_add_up() {
    let s1 = Statement::Let { name: "a".to_string(), ty: None, value: await_of(ident("f")), is_mutable: false };
    let s2 = Statement::Expression(await_of(await_of(ident("g"))));
    let s3 = Statement::Return { span_id: None, value: Some(await_of(ident("h"))) };
    assert_eq!(count_await_in_statement(&s1), 1);
    assert_eq!(count_await_in_statement(&s2), 2);
    let block = Block { statements: vec![s1, s2, s3] };
    assert_eq!(count_await_points(&block), 4);
}

#[test]
fn awaits_inside_if_and_while_are_counted() {
    let then_block = Block { statements: vec![Statement::Expression(await_of(ident("a")))] };
    let else_block = Block { statements: vec![Statement::Expression(await_of(ident("b")))] };
    let if_stmt = Statement::If {
        span_id: None,
        condition: await_of(ident("c")),
        then_block,
        elif_branches: vec![],
        else_block: Some(else_block),
    };
    assert_eq!(count_await_in_statement(&if_stmt), 3);
    let while_stmt = Statement::While {
        span_id: None,
        condition: Expression::BoolLiteral(true),
        body: Block { statements: vec![Statement::Expression(await_of(ident("d")))] },
    };
    assert_eq!(count_await_in_statement(&while_stmt), 1);
}
