use monkey::ast::{Bool, Expression, Ident, LetStatement, Literal, Statement};
use monkey::lexer::Lexer;
use monkey::parser::Parser;
use monkey::token::{Operator, Token};

fn parse(input: &str) -> monkey::ast::Program {
    let lexer = Lexer::new(input);
    let mut parser = Parser::new(lexer).unwrap();
    parser.parse_program().unwrap()
}

#[test]
fn test_statements() {
    let input = r#"flix;
        50;
        let x = 0;
        let y = 1 + 2;
        let yes = !false;
        x = 3;
        let a = b = c = false;
        x = 1 * (2 + 3);
        x = {
            let y = 1 + 2;
            y
        };
        x = if x == y {
            let z = 1 + 2;
            z
        } else {
            y
        };
        let add = fn(a, b) {
            a + b
        };
        let hello = fn() {};
        let boo = fn(a) {};
        let moo = fn(a) {a}(1);
        let moo = boo(1 + 2);
        "#;

    let expected = vec![
        Statement::Expression(Expression::Ident(Ident {
            name: "flix".into(),
        })),
        Statement::Expression(Expression::Literal(Literal::Int(50))),
        Statement::Let(LetStatement {
            name: Ident { name: "x".into() },
            value: Expression::Literal(Literal::Int(0)),
        }),
        Statement::Let(LetStatement {
            name: Ident { name: "y".into() },
            value: Expression::Infix {
                operator: Token::Operator(Operator::Plus),
                lhs: Box::new(Expression::Literal(Literal::Int(1))),
                rhs: Box::new(Expression::Literal(Literal::Int(2))),
            },
        }),
        Statement::Let(LetStatement {
            name: Ident { name: "yes".into() },
            value: Expression::Prefix {
                operator: Token::Operator(Operator::Bang),
                operand: Box::new(Expression::Literal(Literal::Bool(Bool::False))),
            },
        }),
        Statement::Expression(Expression::Infix {
            operator: Token::Operator(Operator::Assign),
            lhs: Box::new(Expression::Ident(Ident { name: "x".into() })),
            rhs: Box::new(Expression::Literal(Literal::Int(3))),
        }),
        Statement::Let(LetStatement {
            name: Ident { name: "a".into() },
            value: Expression::Infix {
                operator: Token::Operator(Operator::Assign),
                lhs: Box::new(Expression::Ident(Ident { name: "b".into() })),
                rhs: Box::new(Expression::Infix {
                    operator: Token::Operator(Operator::Assign),
                    lhs: Box::new(Expression::Ident(Ident { name: "c".into() })),
                    rhs: Box::new(Expression::Literal(Literal::Bool(Bool::False))),
                }),
            },
        }),
        Statement::Expression(Expression::Infix {
            operator: Token::Operator(Operator::Assign),
            lhs: Box::new(Expression::Ident(Ident { name: "x".into() })),
            rhs: Box::new(Expression::Infix {
                operator: Token::Operator(Operator::Multiply),
                lhs: Box::new(Expression::Literal(Literal::Int(1))),
                rhs: Box::new(Expression::Infix {
                    operator: Token::Operator(Operator::Plus),
                    lhs: Box::new(Expression::Literal(Literal::Int(2))),
                    rhs: Box::new(Expression::Literal(Literal::Int(3))),
                }),
            }),
        }),
        Statement::Expression(Expression::Infix {
            operator: Token::Operator(Operator::Assign),
            lhs: Box::new(Expression::Ident(Ident { name: "x".into() })),
            rhs: Box::new(Expression::Block {
                statements: vec![
                    Statement::Let(LetStatement {
                        name: Ident { name: "y".into() },
                        value: Expression::Infix {
                            operator: Token::Operator(Operator::Plus),
                            lhs: Box::new(Expression::Literal(Literal::Int(1))),
                            rhs: Box::new(Expression::Literal(Literal::Int(2))),
                        },
                    }),
                    Statement::Expression(Expression::Ident(Ident { name: "y".into() })),
                ],
            }),
        }),
        Statement::Expression(Expression::Infix {
            operator: Token::Operator(Operator::Assign),
            lhs: Box::new(Expression::Ident(Ident { name: "x".into() })),
            rhs: Box::new(Expression::If {
                condition: Box::new(Expression::Infix {
                    operator: Token::Operator(Operator::Equal),
                    lhs: Box::new(Expression::Ident(Ident { name: "x".into() })),
                    rhs: Box::new(Expression::Ident(Ident { name: "y".into() })),
                }),
                consequence: Box::new(Expression::Block {
                    statements: vec![
                        Statement::Let(LetStatement {
                            name: Ident { name: "z".into() },
                            value: Expression::Infix {
                                operator: Token::Operator(Operator::Plus),
                                lhs: Box::new(Expression::Literal(Literal::Int(1))),
                                rhs: Box::new(Expression::Literal(Literal::Int(2))),
                            },
                        }),
                        Statement::Expression(Expression::Ident(Ident { name: "z".into() })),
                    ],
                }),
                alternative: Some(Box::new(Expression::Block {
                    statements: vec![Statement::Expression(Expression::Ident(Ident {
                        name: "y".into(),
                    }))],
                })),
            }),
        }),
        Statement::Let(LetStatement {
            name: Ident { name: "add".into() },
            value: Expression::Literal(Literal::Function {
                parameters: vec![Ident { name: "a".into() }, Ident { name: "b".into() }],
                body: Box::new(Expression::Block {
                    statements: vec![Statement::Expression(Expression::Infix {
                        operator: Token::Operator(Operator::Plus),
                        lhs: Box::new(Expression::Ident(Ident { name: "a".into() })),
                        rhs: Box::new(Expression::Ident(Ident { name: "b".into() })),
                    })],
                }),
                capture: vec![],
            }),
        }),
        Statement::Let(LetStatement {
            name: Ident {
                name: "hello".into(),
            },
            value: Expression::Literal(Literal::Function {
                parameters: vec![],
                body: Box::new(Expression::Block { statements: vec![] }),
                capture: vec![],
            }),
        }),
        Statement::Let(LetStatement {
            name: Ident { name: "boo".into() },
            value: Expression::Literal(Literal::Function {
                parameters: vec![Ident { name: "a".into() }],
                body: Box::new(Expression::Block { statements: vec![] }),
                capture: vec![],
            }),
        }),
        Statement::Let(LetStatement {
            name: Ident { name: "moo".into() },
            value: Expression::Invoked {
                invoked: Box::new(Expression::Literal(Literal::Function {
                    parameters: vec![Ident { name: "a".into() }],
                    body: Box::new(Expression::Block {
                        statements: vec![Statement::Expression(Expression::Ident(Ident {
                            name: "a".into(),
                        }))],
                    }),
                    capture: vec![],
                })),
                args: vec![Expression::Literal(Literal::Int(1))],
            },
        }),
        Statement::Let(LetStatement {
            name: Ident { name: "moo".into() },
            value: Expression::Invoked {
                invoked: Box::new(Expression::Ident(Ident { name: "boo".into() })),
                args: vec![Expression::Infix {
                    operator: Token::Operator(Operator::Plus),
                    lhs: Box::new(Expression::Literal(Literal::Int(1))),
                    rhs: Box::new(Expression::Literal(Literal::Int(2))),
                }],
            },
        }),
    ];

    let errors = vec![];

    let lexer = Lexer::new(input);
    let mut sut = Parser::new(lexer).unwrap();
    let program = sut.parse_program();

    assert!(program.is_ok());

    let program = program.unwrap();

    assert_eq!(program.statements, expected);
    assert_eq!(program.errors, errors);
}

#[test]
fn parser_is_deterministic() {
    let input = r#"let a = 4; let f = fn(x) { x + a }; f(1) * [1, 2][0]; { .k = "v" }.k;"#;
    assert_eq!(parse(input), parse(input));
}

#[test]
fn parser_precedence_product_over_sum() {
    assert_eq!(parse("1 + 2 * 3;"), parse("1 + (2 * 3);"));
}

#[test]
fn parser_precedence_assign_associates_right() {
    assert_eq!(parse("a = b = c;"), parse("a = (b = c);"));
}

#[test]
fn parser_precedence_prefix_nesting() {
    assert_eq!(parse("!-x;"), parse("!(-x);"));
}

#[test]
fn parser_precedence_invoke_over_sum() {
    assert_eq!(parse("f(1,2)+3;"), parse("(f(1,2))+3;"));
}

#[test]
fn parser_records_errors_and_continues() {
    let program = parse("let = 3; 7;");
    assert_eq!(program.errors.len(), 1);
    assert_eq!(
        program.statements,
        vec![Statement::Expression(Expression::Literal(Literal::Int(7)))]
    );
}

#[test]
fn parser_captures_free_names() {
    let program = parse("fn(y) { x + y };");
    match &program.statements[0] {
        Statement::Expression(Expression::Literal(Literal::Function { capture, .. })) => {
            assert_eq!(capture, &vec![Ident { name: "x".into() }]);
        }
        other => panic!("expected a function literal, got {:?}", other),
    }
}

#[test]
fn parser_capture_skips_let_bound_names() {
    let program = parse("fn() { let a = b; a + c };");
    match &program.statements[0] {
        Statement::Expression(Expression::Literal(Literal::Function { capture, .. })) => {
            assert_eq!(
                capture,
                &vec![Ident { name: "b".into() }, Ident { name: "c".into() }]
            );
        }
        other => panic!("expected a function literal, got {:?}", other),
    }
}

#[test]
fn parser_vector_and_index() {
    let program = parse("v[1];");
    assert_eq!(
        program.statements,
        vec![Statement::Expression(Expression::Indexed {
            indexee: Box::new(Expression::Ident(Ident { name: "v".into() })),
            index: Box::new(Expression::Literal(Literal::Int(1))),
        })]
    );
}

#[test]
fn parser_collection_literal() {
    let program = parse("{ .a = 1, .b = 2 };");
    assert_eq!(
        program.statements,
        vec![Statement::Expression(Expression::Literal(
            Literal::Collection {
                members: vec![
                    (
                        Ident { name: "a".into() },
                        Expression::Literal(Literal::Int(1))
                    ),
                    (
                        Ident { name: "b".into() },
                        Expression::Literal(Literal::Int(2))
                    ),
                ],
            }
        ))]
    );
}
