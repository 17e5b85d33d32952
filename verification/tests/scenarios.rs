use monkey::ast::{Expression, Node};
use monkey::eval::{Error, Eval, Flow};
use monkey::lexer::Lexer;
use monkey::object::{render_value, Value};
use monkey::parser::Parser;

/// Runs `input` as one program and renders its final value.
fn run(input: &str) -> String {
    let program = Parser::new(Lexer::new(input))
        .unwrap()
        .parse_program()
        .unwrap();
    assert!(program.errors.is_empty(), "parse errors: {:?}", program.errors);
    let mut runtime = Eval::new();
    let flow = runtime
        .eval(Node::Expression(Expression::Program(program)))
        .unwrap();
    render_value(&flow.unwrap())
}

/// Runs `input` and expects a run-time evaluation error.
fn run_err(input: &str) -> Error {
    let program = Parser::new(Lexer::new(input))
        .unwrap()
        .parse_program()
        .unwrap();
    assert!(program.errors.is_empty(), "parse errors: {:?}", program.errors);
    let mut runtime = Eval::new();
    runtime
        .eval(Node::Expression(Expression::Program(program)))
        .unwrap_err()
}

#[test]
fn arithmetic_with_grouping() {
    assert_eq!(run("5; 10; 4 * (10 + 2);"), "48");
}

#[test]
fn boolean_comparisons() {
    assert_eq!(
        run("true == true; 4 < 10; (5 >= 8) == true; false == (3 > 20);"),
        "true"
    );
}

#[test]
fn if_else_and_missing_alternative() {
    assert_eq!(run("if 1 > 10 { 5 } else { 10 * 8 };"), "80");
    assert_eq!(run("if 4 == 3 { 4 };"), "null");
}

#[test]
fn let_binding() {
    assert_eq!(run("let a = 4; a;"), "4");
}

#[test]
fn function_call() {
    assert_eq!(run("let add = fn(a, b) { a + b }; add(2, 3);"), "5");
}

#[test]
fn closure_keeps_declaration_scope_values() {
    assert_eq!(
        run("let makeAdder = fn(x) { fn(y) { x + y } }; let addTwo = makeAdder(2); addTwo(40);"),
        "42"
    );
}

#[test]
fn string_concatenation_and_len() {
    assert_eq!(run(r#"let s = "hello, " + "world"; len(s);"#), "12");
}

#[test]
fn vector_indexing_and_len() {
    assert_eq!(run("let v = [10, 20, 30]; v[1] + len(v);"), "23");
}

#[test]
fn return_short_circuits_the_body() {
    assert_eq!(run("let f = fn(n) { if n < 2 { return n; } n }; f(5);"), "5");
}

#[test]
fn return_exits_function_not_blocks() {
    assert_eq!(run("let f = fn() { { return 7; 8 }; 9 }; f();"), "7");
}

#[test]
fn block_scope_is_dropped_and_shadowing_restores() {
    assert_eq!(run("let x = 1; let y = { let x = 2; x }; x;"), "1");
    assert_eq!(run("let x = 1; let y = { let x = 2; x }; y;"), "2");
}

#[test]
fn assignment_and_compound_assignment() {
    assert_eq!(run("let a = 1; a = 9; a;"), "9");
    assert_eq!(run("let a = 1; a += 4; a;"), "5");
    assert_eq!(run("let a = 9; a -= 4; a;"), "5");
}

#[test]
fn vector_concatenation_and_out_of_range() {
    assert_eq!(run("let v = [1] + [2, 3]; v[2];"), "3");
    assert_eq!(run("let v = [1]; v[5];"), "null");
    assert_eq!(run("let v = [1]; v[0 - 1];"), "null");
}

#[test]
fn collection_access_union_intersection() {
    assert_eq!(run("let c = { .a = 1, .b = 2 }; c.a;"), "1");
    assert_eq!(run("let u = { .a = 1 } | { .a = 2, .b = 3 }; u.a;"), "2");
    assert_eq!(run("let i = { .a = 1, .b = 2 } & { .a = 9 }; i.a;"), "1");
}

#[test]
fn collection_member_assignment_is_copy_on_write() {
    assert_eq!(run("let c = { .a = 1 }; c.a = 5; c.a;"), "5");
    assert_eq!(run("let c = { .a = 1 }; c.b = 7; c.b + c.a;"), "8");
}

#[test]
fn member_assignment_needs_a_named_collection() {
    assert!(matches!(run_err("{ .a = 1 }.a = 5;"), Error::Eval(_)));
    assert!(matches!(
        run_err("let c = { .inner = { .x = 1 } }; c.inner.x = 2;"),
        Error::Eval(_)
    ));
}

#[test]
fn member_access_works_on_any_collection_value() {
    assert_eq!(run("({ .a = 1 } | { .b = 2 }).b;"), "2");
    assert_eq!(run("let c = { .a = 4 }; { c }.a;"), "4");
    assert_eq!(run("let f = fn() { { .k = 9 } }; f().k;"), "9");
}

#[test]
fn assignment_is_right_associative_and_yields_its_value() {
    assert_eq!(run("let b = 0; let c = 0; let a = b = c = 5; a + b + c;"), "15");
}

#[test]
fn truthiness_of_values() {
    assert_eq!(run("if 0 { 1 } else { 2 };"), "2");
    assert_eq!(run(r#"if "" { 1 } else { 2 };"#), "2");
    assert_eq!(run(r#"if "x" { 1 } else { 2 };"#), "1");
}

#[test]
fn print_appends_output_lines() {
    let program = Parser::new(Lexer::new(r#"print(1 + 2); print("hi");"#))
        .unwrap()
        .parse_program()
        .unwrap();
    let mut runtime = Eval::new();
    let flow = runtime
        .eval(Node::Expression(Expression::Program(program)))
        .unwrap();
    assert!(matches!(flow, Flow::Continue(Value::Unit)));
    assert_eq!(runtime.take_output(), vec!["3".to_string(), "hi".to_string()]);
    assert!(runtime.take_output().is_empty());
}

#[test]
fn rendering_of_composite_values() {
    assert_eq!(run("[1, 2, 3];"), "[1, 2, 3]");
    assert_eq!(run("0 - 12;"), "-12");
    assert_eq!(run("{ .a = 1 };"), "{a: 1}");
}

#[test]
fn exit_and_yeet_request_termination() {
    assert!(matches!(run_err("exit();"), Error::Exit));
    assert!(matches!(run_err("1; yeet();"), Error::Exit));
}

#[test]
fn unknown_variable_is_an_error() {
    assert!(matches!(run_err("missing;"), Error::Eval(_)));
}

#[test]
fn mixed_operand_types_are_an_error() {
    assert!(matches!(run_err("5 + true;"), Error::Eval(_)));
    assert!(matches!(run_err(r#""a" == "a";"#), Error::Eval(_)));
}

#[test]
fn division_by_zero_and_overflow_are_errors() {
    assert!(matches!(run_err("1 / 0;"), Error::Eval(_)));
    assert!(matches!(run_err("2147483647 + 1;"), Error::Eval(_)));
}

#[test]
fn arity_mismatch_and_non_function_invocation_are_errors() {
    assert!(matches!(run_err("let f = fn(a) { a }; f(1, 2);"), Error::Eval(_)));
    assert!(matches!(run_err("let x = 3; x(1);"), Error::Eval(_)));
}

#[test]
fn len_arity_and_unsupported_operand_are_errors() {
    assert!(matches!(run_err("len(1, 2);"), Error::Eval(_)));
    assert!(matches!(run_err("len(4);"), Error::Eval(_)));
}

#[test]
fn unary_minus_and_bang_follow_the_slot_table() {
    assert_eq!(run("!true;"), "false");
    assert_eq!(run("!false;"), "true");
    assert!(matches!(run_err("!5;"), Error::Eval(_)));
}

#[test]
fn self_reference_is_reported_not_crashed() {
    assert!(matches!(
        run_err("let f = fn(n) { f(n) }; f(1);"),
        Error::Eval(_)
    ));
}

#[test]
fn division_truncates_like_the_host() {
    assert_eq!(run("7 / 2;"), "3");
    assert_eq!(run("(0 - 7) / 2;"), "-3");
}
