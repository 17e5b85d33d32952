//! Token model: the closed set of token kinds the lexer can produce,
//! together with the keyword table and the ghost mirror [`TokenV`] used by
//! the character-level lexing specification.

use vstd::prelude::*;
use vstd::string::StringExecFns;

verus! {

/// True exactly when the text of `s` is the word `w`.
pub fn word_eq(s: &String, w: &str) -> (r: bool)
    ensures
        r == (s@ == w@),
{
    let t = String::from_str(w);
    *s == t
}

/// A lexical token. `Ident`, `Int` and `Str` carry their payload; all other
/// kinds are bare tags.
#[derive(Debug, PartialEq, Eq)]
pub enum Token {
    Illegal,
    EOF,
    Keyword(Keyword),
    Ident(String),
    Int(i32),
    Str(String),
    Operator(Operator),
    Comma,
    Semicolon,
    LParen,
    RParen,
    LBrace,
    RBrace,
    LBracket,
    RBracket,
}

/// Operator tokens, single- and double-character.
#[derive(Debug, Clone, Copy, PartialEq, Eq, Structural)]
pub enum Operator {
    Assign,
    Plus,
    Minus,
    Divide,
    Multiply,
    PlusEqual,
    MinusEqual,
    Dot,
    Bang,
    Less,
    Greater,
    LessOrEqual,
    GreaterOrEqual,
    Equal,
    NotEqual,
    And,
    Or,
    Ampersand,
    Pipe,
    RightArrow,
    LeftArrow,
}

/// Reserved words. An identifier whose text equals one of these becomes a
/// `Token::Keyword` instead of a `Token::Ident`.
#[derive(Debug, Clone, Copy, PartialEq, Eq, Structural)]
pub enum Keyword {
    Let,
    Function,
    If,
    Else,
    True,
    False,
    Return,
}

/// Ghost mirror of [`Token`]: identical shape, but string payloads are
/// sequences of characters, so that values can be built inside
/// specifications.
pub enum TokenV {
    Illegal,
    EOF,
    Keyword(Keyword),
    Ident(Seq<char>),
    Int(i32),
    Str(Seq<char>),
    Operator(Operator),
    Comma,
    Semicolon,
    LParen,
    RParen,
    LBrace,
    RBrace,
    LBracket,
    RBracket,
}

/// The ghost value of a token.
pub open spec fn token_view(t: &Token) -> TokenV {
    match t {
        Token::Illegal => TokenV::Illegal,
        Token::EOF => TokenV::EOF,
        Token::Keyword(k) => TokenV::Keyword(*k),
        Token::Ident(s) => TokenV::Ident(s@),
        Token::Int(i) => TokenV::Int(*i),
        Token::Str(s) => TokenV::Str(s@),
        Token::Operator(o) => TokenV::Operator(*o),
        Token::Comma => TokenV::Comma,
        Token::Semicolon => TokenV::Semicolon,
        Token::LParen => TokenV::LParen,
        Token::RParen => TokenV::RParen,
        Token::LBrace => TokenV::LBrace,
        Token::RBrace => TokenV::RBrace,
        Token::LBracket => TokenV::LBracket,
        Token::RBracket => TokenV::RBracket,
    }
}

/// The reserved word denoted by `s`, if any.
pub open spec fn keyword_of(s: Seq<char>) -> Option<Keyword> {
    if s == "let"@ {
        Some(Keyword::Let)
    } else if s == "fn"@ {
        Some(Keyword::Function)
    } else if s == "if"@ {
        Some(Keyword::If)
    } else if s == "else"@ {
        Some(Keyword::Else)
    } else if s == "true"@ {
        Some(Keyword::True)
    } else if s == "false"@ {
        Some(Keyword::False)
    } else if s == "return"@ {
        Some(Keyword::Return)
    } else {
        None
    }
}

/// The canonical source text of an operator, as produced by the lexer.
pub open spec fn op_text(o: Operator) -> Seq<char> {
    match o {
        Operator::Assign => seq!['='],
        Operator::Plus => seq!['+'],
        Operator::Minus => seq!['-'],
        Operator::Divide => seq!['/'],
        Operator::Multiply => seq!['*'],
        Operator::PlusEqual => seq!['+', '='],
        Operator::MinusEqual => seq!['-', '='],
        Operator::Dot => seq!['.'],
        Operator::Bang => seq!['!'],
        Operator::Less => seq!['<'],
        Operator::Greater => seq!['>'],
        Operator::LessOrEqual => seq!['<', '='],
        Operator::GreaterOrEqual => seq!['>', '='],
        Operator::Equal => seq!['=', '='],
        Operator::NotEqual => seq!['!', '='],
        Operator::And => seq!['&', '&'],
        Operator::Or => seq!['|', '|'],
        Operator::Ampersand => seq!['&'],
        Operator::Pipe => seq!['|'],
        Operator::RightArrow => seq!['-', '>'],
        Operator::LeftArrow => seq!['<', '-'],
    }
}

/// The canonical source text of a keyword.
pub open spec fn keyword_text(k: Keyword) -> Seq<char> {
    match k {
        Keyword::Let => "let"@,
        Keyword::Function => "fn"@,
        Keyword::If => "if"@,
        Keyword::Else => "else"@,
        Keyword::True => "true"@,
        Keyword::False => "false"@,
        Keyword::Return => "return"@,
    }
}

impl Keyword {
    /// Classifies an identifier's text as a reserved word, or rejects it.
    pub fn match_ident(ident: &String) -> (r: Result<Keyword, ()>)
        ensures
            r == match keyword_of(ident@) {
                Some(k) => Result::<Keyword, ()>::Ok(k),
                None => Result::<Keyword, ()>::Err(()),
            },
    {
        if word_eq(ident, "let") {
            Ok(Keyword::Let)
        } else if word_eq(ident, "fn") {
            Ok(Keyword::Function)
        } else if word_eq(ident, "if") {
            Ok(Keyword::If)
        } else if word_eq(ident, "else") {
            Ok(Keyword::Else)
        } else if word_eq(ident, "true") {
            Ok(Keyword::True)
        } else if word_eq(ident, "false") {
            Ok(Keyword::False)
        } else if word_eq(ident, "return") {
            Ok(Keyword::Return)
        } else {
            Err(())
        }
    }
}

impl Clone for Token {
    /// Cloning a token preserves its value exactly.
    fn clone(&self) -> (r: Token)
        ensures
            r == *self,
    {
        match self {
            Token::Illegal => Token::Illegal,
            Token::EOF => Token::EOF,
            Token::Keyword(k) => Token::Keyword(*k),
            Token::Ident(s) => Token::Ident(s.clone()),
            Token::Int(i) => Token::Int(*i),
            Token::Str(s) => Token::Str(s.clone()),
            Token::Operator(o) => Token::Operator(*o),
            Token::Comma => Token::Comma,
            Token::Semicolon => Token::Semicolon,
            Token::LParen => Token::LParen,
            Token::RParen => Token::RParen,
            Token::LBrace => Token::LBrace,
            Token::RBrace => Token::RBrace,
            Token::LBracket => Token::LBracket,
            Token::RBracket => Token::RBracket,
        }
    }
}

} // verus!
