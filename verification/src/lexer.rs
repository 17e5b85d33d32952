//! The lexer: one token per `next_token` call, `EOF` forever after the
//! input is exhausted. It is specified against [`next_token_s`], a
//! character-level function giving the token and the cursor position after
//! it: whitespace is skipped, two-character operators are taken greedily,
//! strings run verbatim to the next quote with no escapes, identifiers that
//! match a reserved word become keywords, and an unknown character yields
//! an `Illegal` token.

use vstd::prelude::*;
use vstd::string::{StrSliceExecFns, StringExecFns};

use crate::error::Error;
use crate::token::{keyword_of, token_view, Keyword, Operator, Token, TokenV};

verus! {

/// The character at `i`, or the sentinel `'\0'` past the end.
pub open spec fn char_at(s: Seq<char>, i: int) -> char {
    if 0 <= i < s.len() {
        s[i]
    } else {
        '\u{0}'
    }
}

/// Whitespace: space, tab, carriage return, line feed.
pub open spec fn is_ws_c(c: char) -> bool {
    c == ' ' || c == '\t' || c == '\n' || c == '\r'
}

/// Identifier characters: ASCII letters and underscore.
pub open spec fn is_letter_c(c: char) -> bool {
    (97 <= c as int && c as int <= 122) || (65 <= c as int && c as int <= 90) || c == '_'
}

/// ASCII digits.
pub open spec fn is_digit_c(c: char) -> bool {
    48 <= c as int && c as int <= 57
}

/// Characters that may start a one- or two-character operator.
pub open spec fn is_op_start(c: char) -> bool {
    c == '=' || c == '!' || c == '-' || c == '+' || c == '&' || c == '|' || c == '<' || c == '>'
}

/// The first index at or after `i` holding a non-whitespace character.
pub open spec fn skip_ws(s: Seq<char>, i: int) -> int
    decreases s.len() - i,
{
    if 0 <= i < s.len() && is_ws_c(s[i]) {
        skip_ws(s, i + 1)
    } else {
        i
    }
}

/// The first index at or after `i` holding a non-identifier character.
pub open spec fn ident_end(s: Seq<char>, i: int) -> int
    decreases s.len() - i,
{
    if 0 <= i < s.len() && is_letter_c(s[i]) {
        ident_end(s, i + 1)
    } else {
        i
    }
}

/// The first index at or after `i` holding a non-digit character.
pub open spec fn int_end(s: Seq<char>, i: int) -> int
    decreases s.len() - i,
{
    if 0 <= i < s.len() && is_digit_c(s[i]) {
        int_end(s, i + 1)
    } else {
        i
    }
}

/// The index of the closing quote (or terminating NUL, or the end of the
/// input) for a string opened just before `i`.
pub open spec fn str_end(s: Seq<char>, i: int) -> int
    decreases s.len() - i,
{
    if 0 <= i < s.len() && s[i] != '"' && s[i] != '\u{0}' {
        str_end(s, i + 1)
    } else {
        i
    }
}

/// The value of the digits `s[i..j)` appended to `acc`.
pub open spec fn digits_val(s: Seq<char>, i: int, j: int, acc: int) -> int
    decreases j - i,
{
    if i < j {
        digits_val(s, i + 1, j, acc * 10 + (s[i] as int - 48))
    } else {
        acc
    }
}

/// The single-character token for `c`; unknown characters are `Illegal`.
pub open spec fn single_tok(c: char) -> TokenV {
    if c == '+' {
        TokenV::Operator(Operator::Plus)
    } else if c == '-' {
        TokenV::Operator(Operator::Minus)
    } else if c == '/' {
        TokenV::Operator(Operator::Divide)
    } else if c == '*' {
        TokenV::Operator(Operator::Multiply)
    } else if c == '<' {
        TokenV::Operator(Operator::Less)
    } else if c == '>' {
        TokenV::Operator(Operator::Greater)
    } else if c == '=' {
        TokenV::Operator(Operator::Assign)
    } else if c == '.' {
        TokenV::Operator(Operator::Dot)
    } else if c == '!' {
        TokenV::Operator(Operator::Bang)
    } else if c == '&' {
        TokenV::Operator(Operator::Ampersand)
    } else if c == '|' {
        TokenV::Operator(Operator::Pipe)
    } else if c == '{' {
        TokenV::LBrace
    } else if c == '}' {
        TokenV::RBrace
    } else if c == '[' {
        TokenV::LBracket
    } else if c == ']' {
        TokenV::RBracket
    } else if c == '(' {
        TokenV::LParen
    } else if c == ')' {
        TokenV::RParen
    } else if c == ';' {
        TokenV::Semicolon
    } else if c == ',' {
        TokenV::Comma
    } else {
        TokenV::Illegal
    }
}

/// The two-character operator formed by `c` followed by `n`, if any.
pub open spec fn double_op(c: char, n: char) -> Option<Operator> {
    if n == '=' {
        if c == '!' {
            Some(Operator::NotEqual)
        } else if c == '=' {
            Some(Operator::Equal)
        } else if c == '>' {
            Some(Operator::GreaterOrEqual)
        } else if c == '<' {
            Some(Operator::LessOrEqual)
        } else if c == '+' {
            Some(Operator::PlusEqual)
        } else if c == '-' {
            Some(Operator::MinusEqual)
        } else {
            None
        }
    } else if n == '>' && c == '-' {
        Some(Operator::RightArrow)
    } else if n == '-' && c == '<' {
        Some(Operator::LeftArrow)
    } else if n == '&' && c == '&' {
        Some(Operator::And)
    } else if n == '|' && c == '|' {
        Some(Operator::Or)
    } else {
        None
    }
}

/// `x`, capped at the input's length.
pub open spec fn cap_pos(s: Seq<char>, x: int) -> int {
    if x <= s.len() {
        x
    } else {
        s.len() as int
    }
}

/// The next token of `s` starting at position `pos`, and the cursor
/// position after it.
pub open spec fn next_token_s(s: Seq<char>, pos: int) -> (TokenV, int) {
    let p = skip_ws(s, pos);
    let c = char_at(s, p);
    if c == '\u{0}' {
        (TokenV::EOF, cap_pos(s, p + 1))
    } else if is_op_start(c) {
        let n = char_at(s, p + 1);
        match double_op(c, n) {
            Some(o) => (TokenV::Operator(o), cap_pos(s, p + 2)),
            None => (single_tok(c), cap_pos(s, p + 1)),
        }
    } else if c == '"' {
        let e = str_end(s, p + 1);
        (TokenV::Str(s.subrange(p + 1, e)), cap_pos(s, e + 1))
    } else if is_letter_c(c) {
        let e = ident_end(s, p);
        let text = s.subrange(p, e);
        (
            match keyword_of(text) {
                Some(k) => TokenV::Keyword(k),
                None => TokenV::Ident(text),
            },
            e,
        )
    } else if is_digit_c(c) {
        let e = int_end(s, p);
        let v = digits_val(s, p, e, 0);
        (
            if v <= i32::MAX {
                TokenV::Int(v as i32)
            } else {
                TokenV::Illegal
            },
            e,
        )
    } else {
        (single_tok(c), cap_pos(s, p + 1))
    }
}

/// `int_end` never moves backwards.
pub proof fn lemma_int_end_ge(s: Seq<char>, i: int)
    ensures
        int_end(s, i) >= i,
    decreases s.len() - i,
{
    if 0 <= i < s.len() && is_digit_c(s[i]) {
        lemma_int_end_ge(s, i + 1);
    }
}

/// The lexer: the input text, its length in characters, the cursor, and
/// the character under the cursor (`'\0'` past the end).
#[derive(Debug)]
pub struct Lexer {
    pub input: String,
    pub length: usize,
    pub position: usize,
    pub c: char,
}

impl Lexer {
    /// Well-formedness: the cached length is the character count, the
    /// cursor is within bounds, and `c` is the character under it.
    pub open spec fn wf(self) -> bool {
        &&& self.length == self.input@.len()
        &&& self.position <= self.length
        &&& self.c == char_at(self.input@, self.position as int)
    }

    /// A lexer over `input`, cursor at the start.
    pub fn new(input: &str) -> (r: Lexer)
        ensures
            r.wf(),
            r.input@ == input@,
            r.position == 0,
    {
        let length = input.unicode_len();
        let c = if length > 0 {
            input.get_char(0)
        } else {
            '\u{0}'
        };
        Lexer { input: input.to_owned(), length, position: 0, c }
    }

    /// Advances the cursor one character, saturating at the end.
    fn read_char(&mut self)
        requires
            old(self).wf(),
        ensures
            final(self).wf(),
            final(self).input == old(self).input,
            final(self).length == old(self).length,
            final(self).position == if old(self).position < old(self).length {
                old(self).position + 1
            } else {
                old(self).position as int
            },
    {
        if self.position < self.length {
            self.position = self.position + 1;
        }
        self.c = if self.position < self.length {
            self.input.as_str().get_char(self.position)
        } else {
            '\u{0}'
        };
    }

    /// Whether the character under the cursor is whitespace.
    fn is_whitespace(&self) -> (r: bool)
        ensures
            r == is_ws_c(self.c),
    {
        self.c == ' ' || self.c == '\t' || self.c == '\n' || self.c == '\r'
    }

    /// Whether the character under the cursor can be part of an identifier.
    fn is_letter(&self) -> (r: bool)
        ensures
            r == is_letter_c(self.c),
    {
        let u = self.c as u32;
        (97 <= u && u <= 122) || (65 <= u && u <= 90) || self.c == '_'
    }

    /// Whether the character under the cursor is a digit.
    fn is_integer(&self) -> (r: bool)
        ensures
            r == is_digit_c(self.c),
    {
        let u = self.c as u32;
        48 <= u && u <= 57
    }

    /// The character after the cursor, `'\0'` past the end.
    fn peek_next(&self) -> (r: char)
        requires
            self.wf(),
        ensures
            r == char_at(self.input@, self.position + 1),
    {
        if self.position < self.length && self.position + 1 < self.length {
            self.input.as_str().get_char(self.position + 1)
        } else {
            '\u{0}'
        }
    }

    /// Skips whitespace; afterwards the cursor sits on the first
    /// non-whitespace character.
    fn skip_whitespace(&mut self)
        requires
            old(self).wf(),
        ensures
            final(self).wf(),
            final(self).input == old(self).input,
            final(self).length == old(self).length,
            final(self).position == skip_ws(old(self).input@, old(self).position as int),
    {
        while self.is_whitespace()
            invariant
                self.wf(),
                self.input == old(self).input,
                self.length == old(self).length,
                skip_ws(self.input@, self.position as int) == skip_ws(
                    old(self).input@,
                    old(self).position as int,
                ),
            decreases self.length - self.position,
        {
            self.read_char();
        }
    }

    /// The one-character token for the character under the cursor.
    fn read_single_token(&self) -> (r: Token)
        ensures
            token_view(&r) == single_tok(self.c),
    {
        if self.c == '+' {
            Token::Operator(Operator::Plus)
        } else if self.c == '-' {
            Token::Operator(Operator::Minus)
        } else if self.c == '/' {
            Token::Operator(Operator::Divide)
        } else if self.c == '*' {
            Token::Operator(Operator::Multiply)
        } else if self.c == '<' {
            Token::Operator(Operator::Less)
        } else if self.c == '>' {
            Token::Operator(Operator::Greater)
        } else if self.c == '=' {
            Token::Operator(Operator::Assign)
        } else if self.c == '.' {
            Token::Operator(Operator::Dot)
        } else if self.c == '!' {
            Token::Operator(Operator::Bang)
        } else if self.c == '&' {
            Token::Operator(Operator::Ampersand)
        } else if self.c == '|' {
            Token::Operator(Operator::Pipe)
        } else if self.c == '{' {
            Token::LBrace
        } else if self.c == '}' {
            Token::RBrace
        } else if self.c == '[' {
            Token::LBracket
        } else if self.c == ']' {
            Token::RBracket
        } else if self.c == '(' {
            Token::LParen
        } else if self.c == ')' {
            Token::RParen
        } else if self.c == ';' {
            Token::Semicolon
        } else if self.c == ',' {
            Token::Comma
        } else {
            Token::Illegal
        }
    }

    /// Greedily reads a two-character operator where one applies,
    /// consuming its second character; otherwise the one-character token.
    fn read_double_token(&mut self) -> (r: Token)
        requires
            old(self).wf(),
        ensures
            final(self).wf(),
            final(self).input == old(self).input,
            final(self).length == old(self).length,
            ({
                let c = old(self).c;
                let n = char_at(old(self).input@, old(self).position + 1);
                match double_op(c, n) {
                    Some(o) => token_view(&r) == TokenV::Operator(o) && final(self).position
                        == old(self).position + 1,
                    None => token_view(&r) == single_tok(c) && final(self).position == old(
                        self,
                    ).position,
                }
            }),
    {
        let n = self.peek_next();
        let c = self.c;
        let picked: Option<Operator> = if n == '=' {
            if c == '!' {
                Some(Operator::NotEqual)
            } else if c == '=' {
                Some(Operator::Equal)
            } else if c == '>' {
                Some(Operator::GreaterOrEqual)
            } else if c == '<' {
                Some(Operator::LessOrEqual)
            } else if c == '+' {
                Some(Operator::PlusEqual)
            } else if c == '-' {
                Some(Operator::MinusEqual)
            } else {
                None
            }
        } else if n == '>' && c == '-' {
            Some(Operator::RightArrow)
        } else if n == '-' && c == '<' {
            Some(Operator::LeftArrow)
        } else if n == '&' && c == '&' {
            Some(Operator::And)
        } else if n == '|' && c == '|' {
            Some(Operator::Or)
        } else {
            None
        };
        match picked {
            Some(o) => {
                proof {
                    // A two-character operator implies a real second
                    // character, so the cursor is not at the end.
                    assert(n != '\u{0}');
                    assert(old(self).position < old(self).length);
                }
                self.read_char();
                Token::Operator(o)
            },
            None => self.read_single_token(),
        }
    }

    /// Reads an identifier: the maximal run of identifier characters under
    /// the cursor.
    fn read_ident(&mut self) -> (r: String)
        requires
            old(self).wf(),
        ensures
            final(self).wf(),
            final(self).input == old(self).input,
            final(self).length == old(self).length,
            final(self).position == ident_end(old(self).input@, old(self).position as int),
            r@ == old(self).input@.subrange(
                old(self).position as int,
                ident_end(old(self).input@, old(self).position as int),
            ),
    {
        let start = self.position;
        while self.is_letter()
            invariant
                self.wf(),
                self.input == old(self).input,
                self.length == old(self).length,
                start <= self.position,
                ident_end(self.input@, self.position as int) == ident_end(
                    old(self).input@,
                    old(self).position as int,
                ),
            decreases self.length - self.position,
        {
            self.read_char();
        }
        let text = self.input.as_str().substring_char(start, self.position);
        text.to_owned()
    }

    /// Reads a string literal: the cursor sits on the opening quote; the
    /// text runs verbatim to the next quote (or the end of the input), and
    /// both quotes are consumed.
    fn read_string(&mut self) -> (r: String)
        requires
            old(self).wf(),
            old(self).c == '"',
        ensures
            final(self).wf(),
            final(self).input == old(self).input,
            final(self).length == old(self).length,
            ({
                let s = old(self).input@;
                let e = str_end(s, old(self).position + 1);
                r@ == s.subrange(old(self).position + 1, e) && final(self).position == cap_pos(
                    s,
                    e + 1,
                )
            }),
    {
        proof {
            assert(old(self).position < old(self).length);
        }
        self.read_char();
        let start = self.position;
        while self.c != '"' && self.c != '\u{0}'
            invariant
                self.wf(),
                self.input == old(self).input,
                self.length == old(self).length,
                start <= self.position,
                str_end(self.input@, self.position as int) == str_end(
                    old(self).input@,
                    old(self).position + 1,
                ),
            decreases self.length - self.position,
        {
            self.read_char();
        }
        let text = self.input.as_str().substring_char(start, self.position);
        let ret = text.to_owned();
        self.read_char();
        ret
    }

    /// Reads an integer literal: the maximal run of digits under the
    /// cursor, as a signed 32-bit value; `None` when it does not fit.
    fn read_integer(&mut self) -> (r: Option<i32>)
        requires
            old(self).wf(),
        ensures
            final(self).wf(),
            final(self).input == old(self).input,
            final(self).length == old(self).length,
            final(self).position == int_end(old(self).input@, old(self).position as int),
            ({
                let v = digits_val(
                    old(self).input@,
                    old(self).position as int,
                    int_end(old(self).input@, old(self).position as int),
                    0,
                );
                if v <= i32::MAX {
                    r == Some(v as i32)
                } else {
                    r is None
                }
            }),
    {
        let ghost s = old(self).input@;
        let ghost target = int_end(s, old(self).position as int);
        proof {
            lemma_int_end_ge(s, old(self).position as int);
        }
        let mut acc: u64 = 0;
        let ghost mut acc_g: int = 0int;
        #[verifier::loop_isolation(false)]
        while self.is_integer()
            invariant
                self.wf(),
                self.input == old(self).input,
                self.length == old(self).length,
                self.position as int <= target,
                int_end(self.input@, self.position as int) == target,
                digits_val(s, self.position as int, target, acc_g) == digits_val(
                    s,
                    old(self).position as int,
                    target,
                    0,
                ),
                acc_g >= 0,
                acc <= 0x5_0000_0000,
                acc > i32::MAX <==> acc_g > i32::MAX,
                acc <= i32::MAX ==> acc == acc_g,
            decreases self.length - self.position,
        {
            proof {
                assert(is_digit_c(self.c));
                assert(self.position < self.length);
                assert(s == self.input@);
                assert(s[self.position as int] == self.c);
                assert(int_end(s, self.position as int) == int_end(s, self.position + 1));
                lemma_int_end_ge(s, self.position + 1);
            }
            let d = (self.c as u32) - 48;
            if acc <= i32::MAX as u64 {
                acc = acc * 10 + (d as u64);
            }
            proof {
                acc_g = acc_g * 10 + (self.c as int - 48);
            }
            self.read_char();
        }
        proof {
            assert(self.position as int == target);
            assert(digits_val(s, target, target, acc_g) == acc_g);
        }
        if acc <= i32::MAX as u64 {
            Some(acc as i32)
        } else {
            None
        }
    }

    /// The next token; `EOF` forever once the input is exhausted. The
    /// token and the new cursor position are exactly those given by
    /// [`next_token_s`]; lexing itself never fails.
    pub fn next_token(&mut self) -> (r: Result<Token, Error>)
        requires
            old(self).wf(),
        ensures
            final(self).wf(),
            final(self).input == old(self).input,
            final(self).length == old(self).length,
            ({
                let (tv, p2) = next_token_s(old(self).input@, old(self).position as int);
                final(self).position == p2 && match r {
                    Ok(t) => token_view(&t) == tv,
                    Err(_) => false,
                }
            }),
    {
        self.skip_whitespace();
        if self.c == '\u{0}' {
            self.read_char();
            Ok(Token::EOF)
        } else if self.c == '=' || self.c == '!' || self.c == '-' || self.c == '+' || self.c == '&'
            || self.c == '|' || self.c == '<' || self.c == '>' {
            let t = self.read_double_token();
            self.read_char();
            Ok(t)
        } else if self.c == '"' {
            let text = self.read_string();
            Ok(Token::Str(text))
        } else if self.is_letter() {
            let ident = self.read_ident();
            match Keyword::match_ident(&ident) {
                Ok(k) => Ok(Token::Keyword(k)),
                Err(_) => Ok(Token::Ident(ident)),
            }
        } else if self.is_integer() {
            match self.read_integer() {
                Some(v) => Ok(Token::Int(v)),
                None => Ok(Token::Illegal),
            }
        } else {
            let t = self.read_single_token();
            self.read_char();
            Ok(t)
        }
    }
}

} // verus!
