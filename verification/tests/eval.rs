use monkey::ast::{Expression, Node};
use monkey::eval::Eval;
use monkey::lexer::Lexer;
use monkey::object::render_value;
use monkey::parser::Parser;

#[test]
fn test_integer_comp() {
    let input = r#"
            5;
            10;
            4 * (10 + 2);
            "#;

    let mut p = Parser::new(Lexer::new(input))
        .unwrap()
        .parse_program()
        .unwrap()
        .statements
        .into_iter();

    let mut r = Eval::new();

    let mut e = r.eval(Node::Statement(p.next().unwrap()));

    assert_eq!(render_value(&e.unwrap().unwrap()), "5");

    e = r.eval(Node::Statement(p.next().unwrap()));

    assert_eq!(render_value(&e.unwrap().unwrap()), "10");

    e = r.eval(Node::Statement(p.next().unwrap()));

    assert_eq!(render_value(&e.unwrap().unwrap()), "48");

    let p = Parser::new(Lexer::new(input))
        .unwrap()
        .parse_program()
        .unwrap();

    r.clear();

    let e = r.eval(Node::Expression(Expression::Program(p)));

    assert_eq!(render_value(&e.unwrap().unwrap()), "48");
}

#[test]
fn test_boolean_comp() {
    let input = r#"
            true == true;
            4 < 10;
            (5 >= 8) == true;
            false == (3 > 20);
            "#;

    let mut p = Parser::new(Lexer::new(input))
        .unwrap()
        .parse_program()
        .unwrap()
        .statements
        .into_iter();

    let mut r = Eval::new();

    let mut e = r.eval(Node::Statement(p.next().unwrap()));

    assert_eq!(render_value(&e.unwrap().unwrap()), "true");

    e = r.eval(Node::Statement(p.next().unwrap()));

    assert_eq!(render_value(&e.unwrap().unwrap()), "true");

    e = r.eval(Node::Statement(p.next().unwrap()));

    assert_eq!(render_value(&e.unwrap().unwrap()), "false");

    e = r.eval(Node::Statement(p.next().unwrap()));

    assert_eq!(render_value(&e.unwrap().unwrap()), "true");

    let p = Parser::new(Lexer::new(input))
        .unwrap()
        .parse_program()
        .unwrap();

    r.clear();

    let e = r.eval(Node::Expression(Expression::Program(p)));

    assert_eq!(render_value(&e.unwrap().unwrap()), "true");
}

#[test]
fn test_if() {
    let input = r#"
            if 1 > 10 { 5 } else { 10 * 8 };
            if 4 == 3 { 4 };
            "#;

    let mut p = Parser::new(Lexer::new(input))
        .unwrap()
        .parse_program()
        .unwrap()
        .statements
        .into_iter();

    let mut r = Eval::new();

    let mut e = r.eval(Node::Statement(p.next().unwrap()));

    assert_eq!(render_value(&e.unwrap().unwrap()), "80");

    e = r.eval(Node::Statement(p.next().unwrap()));

    assert_eq!(render_value(&e.unwrap().unwrap()), "null");

    let p = Parser::new(Lexer::new(input))
        .unwrap()
        .parse_program()
        .unwrap();

    r.clear();

    let e = r.eval(Node::Expression(Expression::Program(p)));

    assert_eq!(render_value(&e.unwrap().unwrap()), "null");
}

#[test]
fn test_let() {
    let input = r#"
            let a = 4;
            a;
            "#;

    let mut p = Parser::new(Lexer::new(input))
        .unwrap()
        .parse_program()
        .unwrap()
        .statements
        .into_iter();

    let mut r = Eval::new();

    let mut e = r.eval(Node::Statement(p.next().unwrap()));

    assert_eq!(render_value(&e.unwrap().unwrap()), "4");

    e = r.eval(Node::Statement(p.next().unwrap()));

    assert_eq!(render_value(&e.unwrap().unwrap()), "4");

    let p = Parser::new(Lexer::new(input))
        .unwrap()
        .parse_program()
        .unwrap();

    r.clear();

    let e = r.eval(Node::Expression(Expression::Program(p)));

    assert_eq!(render_value(&e.unwrap().unwrap()), "4");
}
