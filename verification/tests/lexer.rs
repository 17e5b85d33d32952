use monkey::lexer::Lexer;
use monkey::token::{Keyword, Operator, Token};

#[test]
fn test_next_token() {
    let input = r#"let five = 5;
        let ten = 10;

        let add = fn(x, y) {
            x + y;
        };

        let result = add(five, ten);

        if result != 15 || five < 7 && ten > 11 {
            return false;
        } else {
            return true;
        }
        !-/*5;
        let a = "hello there";
        a -= "2";
        "#;

    let tests = vec![
        Token::Keyword(Keyword::Let),
        Token::Ident("five".into()),
        Token::Operator(Operator::Assign),
        Token::Int(5),
        Token::Semicolon,
        Token::Keyword(Keyword::Let),
        Token::Ident("ten".into()),
        Token::Operator(Operator::Assign),
        Token::Int(10),
        Token::Semicolon,
        Token::Keyword(Keyword::Let),
        Token::Ident("add".into()),
        Token::Operator(Operator::Assign),
        Token::Keyword(Keyword::Function),
        Token::LParen,
        Token::Ident("x".into()),
        Token::Comma,
        Token::Ident("y".into()),
        Token::RParen,
        Token::LBrace,
        Token::Ident("x".into()),
        Token::Operator(Operator::Plus),
        Token::Ident("y".into()),
        Token::Semicolon,
        Token::RBrace,
        Token::Semicolon,
        Token::Keyword(Keyword::Let),
        Token::Ident("result".into()),
        Token::Operator(Operator::Assign),
        Token::Ident("add".into()),
        Token::LParen,
        Token::Ident("five".into()),
        Token::Comma,
        Token::Ident("ten".into()),
        Token::RParen,
        Token::Semicolon,
        Token::Keyword(Keyword::If),
        Token::Ident("result".into()),
        Token::Operator(Operator::NotEqual),
        Token::Int(15),
        Token::Operator(Operator::Or),
        Token::Ident("five".into()),
        Token::Operator(Operator::Less),
        Token::Int(7),
        Token::Operator(Operator::And),
        Token::Ident("ten".into()),
        Token::Operator(Operator::Greater),
        Token::Int(11),
        Token::LBrace,
        Token::Keyword(Keyword::Return),
        Token::Keyword(Keyword::False),
        Token::Semicolon,
        Token::RBrace,
        Token::Keyword(Keyword::Else),
        Token::LBrace,
        Token::Keyword(Keyword::Return),
        Token::Keyword(Keyword::True),
        Token::Semicolon,
        Token::RBrace,
        Token::Operator(Operator::Bang),
        Token::Operator(Operator::Minus),
        Token::Operator(Operator::Divide),
        Token::Operator(Operator::Multiply),
        Token::Int(5),
        Token::Semicolon,
        Token::Keyword(Keyword::Let),
        Token::Ident("a".into()),
        Token::Operator(Operator::Assign),
        Token::Str("hello there".into()),
        Token::Semicolon,
        Token::Ident("a".into()),
        Token::Operator(Operator::MinusEqual),
        Token::Str("2".into()),
        Token::Semicolon,
        Token::EOF,
    ];

    let mut sut = Lexer::new(input);

    for tc in tests {
        assert_eq!(sut.next_token().unwrap(), tc);
    }
}

#[test]
fn lexer_arrows_and_unknown_characters() {
    let mut sut = Lexer::new("-> <- ? @");
    assert_eq!(sut.next_token().unwrap(), Token::Operator(Operator::RightArrow));
    assert_eq!(sut.next_token().unwrap(), Token::Operator(Operator::LeftArrow));
    assert_eq!(sut.next_token().unwrap(), Token::Illegal);
    assert_eq!(sut.next_token().unwrap(), Token::Illegal);
    assert_eq!(sut.next_token().unwrap(), Token::EOF);
    assert_eq!(sut.next_token().unwrap(), Token::EOF);
}

#[test]
fn lexer_identifiers_stop_at_digits() {
    let mut sut = Lexer::new("ab1 c_d");
    assert_eq!(sut.next_token().unwrap(), Token::Ident("ab".into()));
    assert_eq!(sut.next_token().unwrap(), Token::Int(1));
    assert_eq!(sut.next_token().unwrap(), Token::Ident("c_d".into()));
    assert_eq!(sut.next_token().unwrap(), Token::EOF);
}

#[test]
fn lexer_unterminated_string() {
    let mut sut = Lexer::new(r#""abc"#);
    assert_eq!(sut.next_token().unwrap(), Token::Str("abc".into()));
    assert_eq!(sut.next_token().unwrap(), Token::EOF);
}

#[test]
fn lexer_integer_overflow_is_illegal() {
    let mut sut = Lexer::new("2147483647 2147483648;");
    assert_eq!(sut.next_token().unwrap(), Token::Int(2147483647));
    assert_eq!(sut.next_token().unwrap(), Token::Illegal);
    assert_eq!(sut.next_token().unwrap(), Token::Semicolon);
    assert_eq!(sut.next_token().unwrap(), Token::EOF);
}

#[test]
fn lexer_brackets_and_set_operators() {
    let mut sut = Lexer::new("[1] & | ==");
    assert_eq!(sut.next_token().unwrap(), Token::LBracket);
    assert_eq!(sut.next_token().unwrap(), Token::Int(1));
    assert_eq!(sut.next_token().unwrap(), Token::RBracket);
    assert_eq!(sut.next_token().unwrap(), Token::Operator(Operator::Ampersand));
    assert_eq!(sut.next_token().unwrap(), Token::Operator(Operator::Pipe));
    assert_eq!(sut.next_token().unwrap(), Token::Operator(Operator::Equal));
    assert_eq!(sut.next_token().unwrap(), Token::EOF);
}
