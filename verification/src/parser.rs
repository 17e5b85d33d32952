//! The Pratt parser: two-token lookahead (`cur`, `peek`), a precedence
//! table, and prefix/infix/call/index handlers. A parse error is recorded
//! in the program's error list and parsing resumes at the next statement
//! boundary; the parser never aborts on the first error.
//!
//! The parser is specified against `parse_program_s` and its family: a
//! specification-level parser over the ghost state [`PState`] (the input
//! characters, the cursor, the two lookahead tokens and the recorded error
//! kinds), advanced token by token with the lexer's own `next_token_s`.
//! Every executable parse function is proved to leave the parser in exactly
//! the state, and to return exactly the tree, that its specification
//! counterpart gives — so the parse result is a function of the input text
//! alone, the precedence table is pinned, and the capture lists are the
//! specified free names.
//!
//! All recursion and iteration is bounded by a budget proportional to the
//! input's length (see [`parse_budget`]), so neither statement count nor
//! nesting depth is capped beyond what fits in the input; a parse that
//! somehow outran the budget would be reported as a parse error instead of
//! overflowing the host stack. Collection literals are written
//! `{ .name = expr, .name = expr }`: a brace immediately followed by a dot
//! opens a collection literal instead of a block.

use vstd::prelude::*;
use vstd::string::StringExecFns;

use crate::ast::{
    expr_view, exprs_view, idents_view, lemma_exprs_view_push, lemma_idents_view,
    lemma_idents_view_push, lemma_pairs_view_push, lemma_stmts_view_push, pairs_view, stmt_view,
    stmts_view, Bool, ExprV, Expression, Ident, LetStatement, Literal, Program, ReturnStatement,
    Statement, StmtV,
};
use crate::error::Error;
use crate::lexer::{next_token_s, Lexer};
use crate::object::{lemma_strings_view, lemma_strings_view_push, strings_view};
use crate::token::{token_view, Keyword, Operator, Token, TokenV};

verus! {

/// The parsing budget for an input of `n` characters. Every budget unit
/// spent either consumes input or is one of a few bounded bookkeeping
/// steps per token, so a budget proportional to the input length does not
/// run out however many statements the program has or however deeply it
/// nests; the counter saturates rather than overflow.
pub open spec fn parse_budget_s(n: nat) -> nat {
    if n > ((u64::MAX - 64) / 8) as nat {
        u64::MAX as nat
    } else {
        (8 * n + 64) as nat
    }
}

/// The parsing budget for an input of `n` characters.
pub fn parse_budget(n: usize) -> (r: u64)
    ensures
        r as nat == parse_budget_s(n as nat),
{
    if (n as u64) > (u64::MAX - 64) / 8 {
        u64::MAX
    } else {
        8 * (n as u64) + 64
    }
}

/// Operator binding strengths, weakest first.
#[derive(Debug, Clone, Copy, PartialEq, Eq, Structural)]
pub enum Precedence {
    Lowest,
    Assign,
    Equals,
    LessGreater,
    Sum,
    Product,
    Prefix,
    Invoke,
}

/// The numeric strength of a precedence level.
pub open spec fn prec_val(p: Precedence) -> int {
    match p {
        Precedence::Lowest => 0,
        Precedence::Assign => 1,
        Precedence::Equals => 2,
        Precedence::LessGreater => 3,
        Precedence::Sum => 4,
        Precedence::Product => 5,
        Precedence::Prefix => 6,
        Precedence::Invoke => 7,
    }
}

impl Precedence {
    /// The numeric strength of this level.
    pub fn level(&self) -> (r: i32)
        ensures
            r == prec_val(*self),
    {
        match self {
            Precedence::Lowest => 0,
            Precedence::Assign => 1,
            Precedence::Equals => 2,
            Precedence::LessGreater => 3,
            Precedence::Sum => 4,
            Precedence::Product => 5,
            Precedence::Prefix => 6,
            Precedence::Invoke => 7,
        }
    }
}

/// The precedence a token binds with in infix position.
pub open spec fn prec_of(t: TokenV) -> Precedence {
    match t {
        TokenV::LParen => Precedence::Invoke,
        TokenV::LBracket => Precedence::Invoke,
        TokenV::Operator(o) => match o {
            Operator::Dot => Precedence::Invoke,
            Operator::Divide | Operator::Multiply => Precedence::Product,
            Operator::Plus | Operator::Minus | Operator::Ampersand | Operator::Pipe
                => Precedence::Sum,
            Operator::Assign | Operator::PlusEqual | Operator::MinusEqual => Precedence::Assign,
            Operator::Equal | Operator::NotEqual => Precedence::Equals,
            Operator::Less | Operator::LessOrEqual | Operator::Greater
                | Operator::GreaterOrEqual => Precedence::LessGreater,
            _ => Precedence::Lowest,
        },
        _ => Precedence::Lowest,
    }
}

/// The tokens the Pratt driver accepts in infix (led) position through the
/// binary-operator handler.
pub open spec fn led_op(t: TokenV) -> bool {
    ||| t == TokenV::Operator(Operator::Assign)
    ||| t == TokenV::Operator(Operator::Plus)
    ||| t == TokenV::Operator(Operator::Minus)
    ||| t == TokenV::Operator(Operator::Divide)
    ||| t == TokenV::Operator(Operator::Multiply)
    ||| t == TokenV::Operator(Operator::Equal)
    ||| t == TokenV::Operator(Operator::NotEqual)
    ||| t == TokenV::Operator(Operator::Less)
    ||| t == TokenV::Operator(Operator::LessOrEqual)
    ||| t == TokenV::Operator(Operator::Greater)
    ||| t == TokenV::Operator(Operator::GreaterOrEqual)
    ||| t == TokenV::Operator(Operator::Dot)
    ||| t == TokenV::Operator(Operator::Ampersand)
    ||| t == TokenV::Operator(Operator::Pipe)
    ||| t == TokenV::Operator(Operator::PlusEqual)
    ||| t == TokenV::Operator(Operator::MinusEqual)
}

/// The kind of a parse error; the human-readable message is not part of the
/// specification.
pub enum PError {
    ParseError,
    LetStatement,
    Unsupported,
    Args,
    Block,
    IfError,
    FunctionError,
    Collection,
}

/// The kind of an error value.
pub open spec fn perr_view(e: Error) -> PError {
    match e {
        Error::ParseError => PError::ParseError,
        Error::LetStatement(_) => PError::LetStatement,
        Error::Unsupported(_) => PError::Unsupported,
        Error::Args(_) => PError::Args,
        Error::Block(_) => PError::Block,
        Error::IfError(_) => PError::IfError,
        Error::FunctionError(_) => PError::FunctionError,
        Error::Collection(_) => PError::Collection,
    }
}

/// The kinds of a list of error values.
pub open spec fn perrs_view(es: Seq<Error>) -> Seq<PError>
    decreases es,
{
    if es.len() == 0 {
        Seq::empty()
    } else {
        seq![perr_view(es[0])] + perrs_view(es.drop_first())
    }
}

/// Appending one error appends its kind.
pub proof fn lemma_perrs_view_push(es: Seq<Error>, x: Error)
    ensures
        perrs_view(es.push(x)) == perrs_view(es).push(perr_view(x)),
    decreases es.len(),
{
    if es.len() == 0 {
        assert(es.push(x)[0] == x);
        assert(es.push(x).drop_first() =~= Seq::<Error>::empty());
        assert(perrs_view(Seq::<Error>::empty()) =~= Seq::<PError>::empty());
        assert(perrs_view(es.push(x)) =~= perrs_view(es).push(perr_view(x)));
    } else {
        assert(es.push(x).drop_first() =~= es.drop_first().push(x));
        lemma_perrs_view_push(es.drop_first(), x);
        assert(es.push(x)[0] == es[0]);
        assert(perrs_view(es.push(x)) =~= perrs_view(es).push(perr_view(x)));
    }
}

/// Ghost parser state: the input characters, the lexer cursor, the two
/// lookahead tokens, and the kinds of the errors recorded so far.
pub struct PState {
    pub s: Seq<char>,
    pub pos: int,
    pub cur: TokenV,
    pub peek: TokenV,
    pub errs: Seq<PError>,
}

/// The state after shifting the lookahead one token: `cur` becomes the old
/// `peek`, and `peek` is the next token the lexer yields.
pub open spec fn p_adv(st: PState) -> PState {
    let (t, pos2) = next_token_s(st.s, st.pos);
    PState { s: st.s, pos: pos2, cur: st.peek, peek: t, errs: st.errs }
}

/// `st` with one more recorded error kind.
pub open spec fn p_err(st: PState, pe: PError) -> PState {
    PState { s: st.s, pos: st.pos, cur: st.cur, peek: st.peek, errs: st.errs.push(pe) }
}

/// The ghost value of an expression result.
pub open spec fn expr_res(r: Result<Expression, Error>) -> Result<ExprV, PError> {
    match r {
        Ok(e) => Ok(expr_view(e)),
        Err(e) => Err(perr_view(e)),
    }
}

/// The ghost value of a statement result.
pub open spec fn stmt_res(r: Result<Statement, Error>) -> Result<StmtV, PError> {
    match r {
        Ok(s) => Ok(stmt_view(s)),
        Err(e) => Err(perr_view(e)),
    }
}

/// The ghost value of a `let`-statement result.
pub open spec fn let_res(r: Result<LetStatement, Error>) -> Result<(Seq<char>, ExprV), PError> {
    match r {
        Ok(l) => Ok((l.name.name@, expr_view(l.value))),
        Err(e) => Err(perr_view(e)),
    }
}

/// The ghost value of a `return`-statement result.
pub open spec fn ret_res(r: Result<ReturnStatement, Error>) -> Result<ExprV, PError> {
    match r {
        Ok(t) => Ok(expr_view(t.value)),
        Err(e) => Err(perr_view(e)),
    }
}

/// Specification parser: one statement. `let` and `return` need their
/// keyword under the cursor; a lone `;` is the empty statement; anything
/// else is an expression statement with an optional trailing semicolon.
pub open spec fn parse_statement_s(st: PState, fuel: nat) -> (PState, Result<StmtV, PError>)
    decreases fuel, 1nat,
{
    if fuel == 0 {
        (st, Err(PError::Unsupported))
    } else {
        match st.cur {
            TokenV::Keyword(Keyword::Let) => {
                let (st1, r) = parse_let_s(st, (fuel - 1) as nat);
                (
                    st1,
                    match r {
                        Ok(p) => Ok(StmtV::Let { name: p.0, value: p.1 }),
                        Err(pe) => Err(pe),
                    },
                )
            },
            TokenV::Keyword(Keyword::Return) => {
                let (st1, r) = parse_return_s(st, (fuel - 1) as nat);
                (
                    st1,
                    match r {
                        Ok(v) => Ok(StmtV::Return(v)),
                        Err(pe) => Err(pe),
                    },
                )
            },
            TokenV::Semicolon => (st, Ok(StmtV::Empty)),
            _ => {
                let (st1, r) = parse_expression_s(st, 0, (fuel - 1) as nat);
                match r {
                    Ok(e) => if st1.peek == TokenV::Semicolon {
                        (p_adv(st1), Ok(StmtV::Expr(e)))
                    } else {
                        (st1, Ok(StmtV::Expr(e)))
                    },
                    Err(pe) => (st1, Err(pe)),
                }
            },
        }
    }
}

/// Specification parser: `let NAME = EXPR ;`.
pub open spec fn parse_let_s(st: PState, fuel: nat) -> (PState, Result<(Seq<char>, ExprV), PError>)
    decreases fuel, 1nat,
{
    if fuel == 0 {
        (st, Err(PError::Unsupported))
    } else {
        match st.peek {
            TokenV::Ident(name) => {
                let st1 = p_adv(st);
                if st1.peek == TokenV::Operator(Operator::Assign) {
                    let st2 = p_adv(st1);
                    let st3 = p_adv(st2);
                    let (st4, r) = parse_expression_s(st3, 0, (fuel - 1) as nat);
                    match r {
                        Ok(v) => if st4.peek == TokenV::Semicolon {
                            (p_adv(st4), Ok((name, v)))
                        } else {
                            (st4, Err(PError::LetStatement))
                        },
                        Err(pe) => (st4, Err(pe)),
                    }
                } else {
                    (st1, Err(PError::LetStatement))
                }
            },
            _ => (st, Err(PError::LetStatement)),
        }
    }
}

/// Specification parser: `return EXPR ;`.
pub open spec fn parse_return_s(st: PState, fuel: nat) -> (PState, Result<ExprV, PError>)
    decreases fuel, 1nat,
{
    if fuel == 0 {
        (st, Err(PError::Unsupported))
    } else {
        let st1 = p_adv(st);
        let (st2, r) = parse_expression_s(st1, 0, (fuel - 1) as nat);
        match r {
            Ok(v) => if st2.peek == TokenV::Semicolon {
                (p_adv(st2), Ok(v))
            } else {
                (st2, Err(PError::LetStatement))
            },
            Err(pe) => (st2, Err(pe)),
        }
    }
}

/// Specification parser: one expression at a minimum binding strength. A
/// prefix (nud) handler is chosen by the current token; any other token in
/// leading position is a parse error; then infix handlers run while the
/// peek token binds more strongly.
pub open spec fn parse_expression_s(st: PState, min_prec: int, fuel: nat) -> (
    PState,
    Result<ExprV, PError>,
)
    decreases fuel, 1nat,
{
    if fuel == 0 {
        (st, Err(PError::Unsupported))
    } else {
        let (st1, nud) = match st.cur {
            TokenV::LParen => parse_grouped_s(st, (fuel - 1) as nat),
            TokenV::LBrace => if st.peek == TokenV::Operator(Operator::Dot) {
                parse_collection_s(st, (fuel - 1) as nat)
            } else {
                parse_block_s(st, (fuel - 1) as nat)
            },
            TokenV::LBracket => parse_vector_s(st, (fuel - 1) as nat),
            TokenV::Ident(n) => (st, Ok(ExprV::Ident(n))),
            TokenV::Int(v) => (st, Ok(ExprV::Int(v))),
            TokenV::Str(t) => (st, Ok(ExprV::Str(t))),
            TokenV::Keyword(Keyword::If) => parse_if_s(st, (fuel - 1) as nat),
            TokenV::Keyword(Keyword::True) => (st, Ok(ExprV::Bool(true))),
            TokenV::Keyword(Keyword::False) => (st, Ok(ExprV::Bool(false))),
            TokenV::Keyword(Keyword::Function) => parse_function_s(st, (fuel - 1) as nat),
            TokenV::Operator(Operator::Bang) => parse_prefix_s(st, (fuel - 1) as nat),
            TokenV::Operator(Operator::Minus) => parse_prefix_s(st, (fuel - 1) as nat),
            _ => (st, Err(PError::ParseError)),
        };
        match nud {
            Ok(lhs) => parse_led_s(st1, lhs, min_prec, fuel),
            Err(pe) => (st1, Err(pe)),
        }
    }
}

/// Specification parser: the Pratt driver's infix loop. While the peek
/// token is not a semicolon and binds more strongly than `min_prec`, take
/// it as a binary operator, an invocation or an index; any other token
/// ends the expression.
pub open spec fn parse_led_s(st: PState, lhs: ExprV, min_prec: int, fuel: nat) -> (
    PState,
    Result<ExprV, PError>,
)
    decreases fuel, 0nat,
{
    if fuel == 0 {
        (st, Err(PError::Unsupported))
    } else if st.peek == TokenV::Semicolon || prec_val(prec_of(st.peek)) <= min_prec {
        (st, Ok(lhs))
    } else if led_op(st.peek) {
        let st1 = p_adv(st);
        let (st2, r) = parse_infix_operator_s(st1, lhs, (fuel - 1) as nat);
        match r {
            Ok(lhs2) => parse_led_s(st2, lhs2, min_prec, (fuel - 1) as nat),
            Err(pe) => (st2, Err(pe)),
        }
    } else if st.peek == TokenV::LParen {
        let st1 = p_adv(st);
        let (st2, r) = parse_invoke_s(st1, lhs, (fuel - 1) as nat);
        match r {
            Ok(lhs2) => parse_led_s(st2, lhs2, min_prec, (fuel - 1) as nat),
            Err(pe) => (st2, Err(pe)),
        }
    } else if st.peek == TokenV::LBracket {
        let st1 = p_adv(st);
        let (st2, r) = parse_index_s(st1, lhs, (fuel - 1) as nat);
        match r {
            Ok(lhs2) => parse_led_s(st2, lhs2, min_prec, (fuel - 1) as nat),
            Err(pe) => (st2, Err(pe)),
        }
    } else {
        (st, Ok(lhs))
    }
}

/// Specification parser: the right side of a binary operator under the
/// cursor. The right side binds as strongly as the operator itself, so
/// equal precedence associates leftwards — except `=`, whose right side
/// binds weakest, making assignment right-associative.
pub open spec fn parse_infix_operator_s(st: PState, lhs: ExprV, fuel: nat) -> (
    PState,
    Result<ExprV, PError>,
)
    decreases fuel, 1nat,
{
    if fuel == 0 {
        (st, Err(PError::Unsupported))
    } else {
        let op = st.cur;
        let rprec: int = if op == TokenV::Operator(Operator::Assign) {
            0
        } else {
            prec_val(prec_of(op))
        };
        let st1 = p_adv(st);
        let (st2, r) = parse_expression_s(st1, rprec, (fuel - 1) as nat);
        (
            st2,
            match r {
                Ok(rhs) => Ok(ExprV::Infix { op, lhs: Box::new(lhs), rhs: Box::new(rhs) }),
                Err(pe) => Err(pe),
            },
        )
    }
}

/// Specification parser: `!` or unary `-` applied to an operand that binds
/// at prefix strength.
pub open spec fn parse_prefix_s(st: PState, fuel: nat) -> (PState, Result<ExprV, PError>)
    decreases fuel, 1nat,
{
    if fuel == 0 {
        (st, Err(PError::Unsupported))
    } else {
        let op = st.cur;
        let st1 = p_adv(st);
        let (st2, r) = parse_expression_s(st1, prec_val(Precedence::Prefix), (fuel - 1) as nat);
        (
            st2,
            match r {
                Ok(operand) => Ok(ExprV::Prefix { op, operand: Box::new(operand) }),
                Err(pe) => Err(pe),
            },
        )
    }
}

/// Specification parser: a parenthesised expression, which must close.
pub open spec fn parse_grouped_s(st: PState, fuel: nat) -> (PState, Result<ExprV, PError>)
    decreases fuel, 1nat,
{
    if fuel == 0 {
        (st, Err(PError::Unsupported))
    } else {
        let st1 = p_adv(st);
        let (st2, r) = parse_expression_s(st1, 0, (fuel - 1) as nat);
        match r {
            Ok(e) => if st2.peek == TokenV::RParen {
                (p_adv(st2), Ok(e))
            } else {
                (st2, Err(PError::ParseError))
            },
            Err(pe) => (st2, Err(pe)),
        }
    }
}

/// Specification parser: `if COND BLOCK` with an optional `else BLOCK`.
pub open spec fn parse_if_s(st: PState, fuel: nat) -> (PState, Result<ExprV, PError>)
    decreases fuel, 1nat,
{
    if fuel == 0 {
        (st, Err(PError::Unsupported))
    } else {
        let st1 = p_adv(st);
        let (st2, rc) = parse_expression_s(st1, 0, (fuel - 1) as nat);
        match rc {
            Ok(cond) => if st2.peek == TokenV::LBrace {
                let st3 = p_adv(st2);
                let (st4, rb) = parse_block_s(st3, (fuel - 1) as nat);
                match rb {
                    Ok(cons) => if st4.peek == TokenV::Keyword(Keyword::Else) {
                        let st5 = p_adv(st4);
                        if st5.peek == TokenV::LBrace {
                            let st6 = p_adv(st5);
                            let (st7, ra) = parse_block_s(st6, (fuel - 1) as nat);
                            match ra {
                                Ok(alt) => (
                                    st7,
                                    Ok(ExprV::If {
                                        cond: Box::new(cond),
                                        cons: Box::new(cons),
                                        alt: Some(Box::new(alt)),
                                    }),
                                ),
                                Err(pe) => (st7, Err(pe)),
                            }
                        } else {
                            (st5, Err(PError::IfError))
                        }
                    } else {
                        (
                            st4,
                            Ok(ExprV::If {
                                cond: Box::new(cond),
                                cons: Box::new(cons),
                                alt: None,
                            }),
                        )
                    },
                    Err(pe) => (st4, Err(pe)),
                }
            } else {
                (st2, Err(PError::IfError))
            },
            Err(pe) => (st2, Err(pe)),
        }
    }
}

/// Specification parser: a block after its opening brace. Statement errors
/// are recorded and parsing resumes at the next statement boundary inside
/// the block.
pub open spec fn parse_block_s(st: PState, fuel: nat) -> (PState, Result<ExprV, PError>)
    decreases fuel, 1nat,
{
    if fuel == 0 {
        (st, Err(PError::Unsupported))
    } else {
        let (st1, stmts) = block_items_s(p_adv(st), Seq::empty(), (fuel - 1) as nat);
        (st1, Ok(ExprV::Block(stmts)))
    }
}

/// Specification parser: the statements of a block, until its closing
/// brace or the end of input.
pub open spec fn block_items_s(st: PState, acc: Seq<StmtV>, fuel: nat) -> (PState, Seq<StmtV>)
    decreases fuel, 0nat,
{
    if fuel == 0 {
        (p_err(st, PError::Unsupported), acc)
    } else if st.cur == TokenV::RBrace || st.cur == TokenV::EOF {
        (st, acc)
    } else {
        let (st1, r) = parse_statement_s(st, (fuel - 1) as nat);
        match r {
            Ok(s) => block_items_s(p_adv(st1), acc.push(s), (fuel - 1) as nat),
            Err(pe) => {
                let st2 = skip_s(p_err(st1, pe), true, (fuel - 1) as nat);
                if st2.cur == TokenV::Semicolon {
                    block_items_s(p_adv(st2), acc, (fuel - 1) as nat)
                } else {
                    (st2, acc)
                }
            },
        }
    }
}

/// Specification parser: skips to the next statement boundary — a
/// semicolon, the end of input, or (inside a block) the closing brace.
pub open spec fn skip_s(st: PState, in_block: bool, fuel: nat) -> PState
    decreases fuel, 0nat,
{
    if fuel == 0 {
        st
    } else if st.cur == TokenV::Semicolon || st.cur == TokenV::EOF || (in_block && st.cur
        == TokenV::RBrace) {
        st
    } else {
        skip_s(p_adv(st), in_block, (fuel - 1) as nat)
    }
}

/// Specification parser: invocation arguments after the opening
/// parenthesis, comma-separated, closed by `)`.
pub open spec fn invoke_args_s(st: PState, acc: Seq<ExprV>, fuel: nat) -> (
    PState,
    Result<Seq<ExprV>, PError>,
)
    decreases fuel, 0nat,
{
    if fuel == 0 {
        (st, Err(PError::Unsupported))
    } else if st.peek == TokenV::RParen {
        (p_adv(st), Ok(acc))
    } else if st.cur == TokenV::EOF {
        (st, Err(PError::FunctionError))
    } else {
        let st1 = p_adv(st);
        let (st2, r) = parse_expression_s(st1, 0, (fuel - 1) as nat);
        match r {
            Ok(a) => {
                let st3 = if st2.peek == TokenV::Comma {
                    p_adv(st2)
                } else {
                    st2
                };
                invoke_args_s(st3, acc.push(a), (fuel - 1) as nat)
            },
            Err(pe) => (st2, Err(pe)),
        }
    }
}

/// Specification parser: an invocation of `lhs`, cursor on the opening
/// parenthesis.
pub open spec fn parse_invoke_s(st: PState, lhs: ExprV, fuel: nat) -> (
    PState,
    Result<ExprV, PError>,
)
    decreases fuel, 1nat,
{
    let (st1, r) = invoke_args_s(st, Seq::empty(), fuel);
    (
        st1,
        match r {
            Ok(args) => Ok(ExprV::Invoked { target: Box::new(lhs), args }),
            Err(pe) => Err(pe),
        },
    )
}

/// Specification parser: vector elements after the opening bracket,
/// comma-separated, closed by `]`.
pub open spec fn vector_items_s(st: PState, acc: Seq<ExprV>, fuel: nat) -> (
    PState,
    Result<Seq<ExprV>, PError>,
)
    decreases fuel, 0nat,
{
    if fuel == 0 {
        (st, Err(PError::Unsupported))
    } else if st.peek == TokenV::RBracket {
        (p_adv(st), Ok(acc))
    } else if st.cur == TokenV::EOF {
        (st, Err(PError::Unsupported))
    } else {
        let st1 = p_adv(st);
        let (st2, r) = parse_expression_s(st1, 0, (fuel - 1) as nat);
        match r {
            Ok(a) => {
                let st3 = if st2.peek == TokenV::Comma {
                    p_adv(st2)
                } else {
                    st2
                };
                vector_items_s(st3, acc.push(a), (fuel - 1) as nat)
            },
            Err(pe) => (st2, Err(pe)),
        }
    }
}

/// Specification parser: a vector literal, cursor on the opening bracket.
pub open spec fn parse_vector_s(st: PState, fuel: nat) -> (PState, Result<ExprV, PError>)
    decreases fuel, 1nat,
{
    let (st1, r) = vector_items_s(st, Seq::empty(), fuel);
    (
        st1,
        match r {
            Ok(es) => Ok(ExprV::VecLit(es)),
            Err(pe) => Err(pe),
        },
    )
}

/// Specification parser: collection members `.name = expr`,
/// comma-separated, closed by `}`; cursor on the opening brace.
pub open spec fn collection_items_s(
    st: PState,
    acc: Seq<(Seq<char>, ExprV)>,
    fuel: nat,
) -> (PState, Result<Seq<(Seq<char>, ExprV)>, PError>)
    decreases fuel, 0nat,
{
    if fuel == 0 {
        (st, Err(PError::Unsupported))
    } else if !(st.peek == TokenV::Operator(Operator::Dot)) || st.cur == TokenV::EOF {
        if st.peek == TokenV::RBrace {
            (p_adv(st), Ok(acc))
        } else {
            (st, Err(PError::Collection))
        }
    } else {
        let st1 = p_adv(st);
        match st1.peek {
            TokenV::Ident(name) => {
                let st2 = p_adv(st1);
                if st2.peek == TokenV::Operator(Operator::Assign) {
                    let st3 = p_adv(st2);
                    let st4 = p_adv(st3);
                    let (st5, r) = parse_expression_s(st4, 0, (fuel - 1) as nat);
                    match r {
                        Ok(v) => {
                            let st6 = if st5.peek == TokenV::Comma {
                                p_adv(st5)
                            } else {
                                st5
                            };
                            collection_items_s(st6, acc.push((name, v)), (fuel - 1) as nat)
                        },
                        Err(pe) => (st5, Err(pe)),
                    }
                } else {
                    (st2, Err(PError::Collection))
                }
            },
            _ => (st1, Err(PError::Collection)),
        }
    }
}

/// Specification parser: a collection literal, cursor on the opening
/// brace.
pub open spec fn parse_collection_s(st: PState, fuel: nat) -> (PState, Result<ExprV, PError>)
    decreases fuel, 1nat,
{
    let (st1, r) = collection_items_s(st, Seq::empty(), fuel);
    (
        st1,
        match r {
            Ok(ms) => Ok(ExprV::CollLit(ms)),
            Err(pe) => Err(pe),
        },
    )
}

/// Specification parser: comma-separated parameter names, cursor on the
/// first parameter (or the closing parenthesis).
pub open spec fn fn_params_s(st: PState, acc: Seq<Seq<char>>, fuel: nat) -> (
    PState,
    Seq<Seq<char>>,
)
    decreases fuel, 0nat,
{
    if fuel == 0 {
        (st, acc)
    } else {
        match st.cur {
            TokenV::Ident(n) => {
                let st1 = if st.peek == TokenV::Comma {
                    p_adv(st)
                } else {
                    st
                };
                fn_params_s(p_adv(st1), acc.push(n), (fuel - 1) as nat)
            },
            _ => (st, acc),
        }
    }
}

/// Specification parser: a function literal `fn ( ident , ... ) BLOCK`,
/// cursor on the `fn` keyword. The capture list is the body's free names:
/// identifiers that are neither parameters nor bound by an earlier `let`
/// in the same body, in first-occurrence order, without duplicates.
pub open spec fn parse_function_s(st: PState, fuel: nat) -> (PState, Result<ExprV, PError>)
    decreases fuel, 1nat,
{
    if fuel == 0 {
        (st, Err(PError::Unsupported))
    } else if st.peek == TokenV::LParen {
        let st1 = p_adv(st);
        let st2 = p_adv(st1);
        let (st3, params) = fn_params_s(st2, Seq::empty(), (fuel - 1) as nat);
        if st3.cur == TokenV::RParen {
            if st3.peek == TokenV::LBrace {
                let st4 = p_adv(st3);
                let (st5, rb) = parse_block_s(st4, (fuel - 1) as nat);
                match rb {
                    Ok(body) => (
                        st5,
                        Ok(ExprV::FnLit {
                            params,
                            body: Box::new(body),
                            capture: fv_expr(body, params, Seq::empty()),
                        }),
                    ),
                    Err(pe) => (st5, Err(pe)),
                }
            } else {
                (st3, Err(PError::FunctionError))
            }
        } else {
            (st3, Err(PError::FunctionError))
        }
    } else {
        (st, Err(PError::FunctionError))
    }
}

/// Specification parser: an indexing of `lhs`, cursor on the opening
/// bracket.
pub open spec fn parse_index_s(st: PState, lhs: ExprV, fuel: nat) -> (
    PState,
    Result<ExprV, PError>,
)
    decreases fuel, 1nat,
{
    if fuel == 0 {
        (st, Err(PError::Unsupported))
    } else {
        let st1 = p_adv(st);
        let (st2, r) = parse_expression_s(st1, 0, (fuel - 1) as nat);
        match r {
            Ok(ix) => if st2.peek == TokenV::RBracket {
                (
                    p_adv(st2),
                    Ok(ExprV::Indexed { indexee: Box::new(lhs), index: Box::new(ix) }),
                )
            } else {
                (st2, Err(PError::Unsupported))
            },
            Err(pe) => (st2, Err(pe)),
        }
    }
}

/// Specification parser: the statements of a whole program, to the end of
/// input.
pub open spec fn program_items_s(st: PState, acc: Seq<StmtV>, fuel: nat) -> (PState, Seq<StmtV>)
    decreases fuel, 0nat,
{
    if fuel == 0 {
        (p_err(st, PError::Unsupported), acc)
    } else if st.cur == TokenV::EOF {
        (st, acc)
    } else {
        let (st1, r) = parse_statement_s(st, (fuel - 1) as nat);
        match r {
            Ok(s) => program_items_s(p_adv(st1), acc.push(s), (fuel - 1) as nat),
            Err(pe) => {
                let st2 = skip_s(p_err(st1, pe), false, (fuel - 1) as nat);
                if st2.cur == TokenV::Semicolon {
                    program_items_s(p_adv(st2), acc, (fuel - 1) as nat)
                } else {
                    (st2, acc)
                }
            },
        }
    }
}

/// Specification parser: a whole program. The result is the statement list,
/// the recorded error kinds, and the final state with its error list
/// drained — a function of the input character stream and nothing else.
pub open spec fn parse_program_s(st: PState) -> (PState, Seq<StmtV>, Seq<PError>) {
    let (st1, stmts) = program_items_s(st, Seq::empty(), parse_budget_s(st.s.len()));
    (
        PState { s: st1.s, pos: st1.pos, cur: st1.cur, peek: st1.peek, errs: Seq::empty() },
        stmts,
        st1.errs,
    )
}

/// Whether `s` holds the name `n`.
pub open spec fn has_name(s: Seq<Seq<char>>, n: Seq<char>) -> bool
    decreases s.len(),
{
    if s.len() == 0 {
        false
    } else if s[0] == n {
        true
    } else {
        has_name(s.drop_first(), n)
    }
}

/// `has_name` holds exactly when some entry is the name.
pub proof fn lemma_has_name(s: Seq<Seq<char>>, n: Seq<char>)
    ensures
        has_name(s, n) <==> exists|i: int| 0 <= i < s.len() && s[i] == n,
    decreases s.len(),
{
    if s.len() > 0 {
        lemma_has_name(s.drop_first(), n);
        if s[0] == n {
            assert(s[0] == n);
        } else if exists|i: int| 0 <= i < s.len() && s[i] == n {
            let i = choose|i: int| 0 <= i < s.len() && s[i] == n;
            assert(s.drop_first()[i - 1] == s[i]);
        }
    }
}

/// The free names of an expression, appended to `acc` in first-occurrence
/// order without duplicates; names in `bound` are skipped. The member name
/// of a `.` access and the keys of a collection literal are not variable
/// occurrences; a nested function's free names count, since constructing
/// it snapshots them from the enclosing scope.
pub open spec fn fv_expr(e: ExprV, bound: Seq<Seq<char>>, acc: Seq<Seq<char>>) -> Seq<Seq<char>>
    decreases e, 0nat,
{
    match e {
        ExprV::Program(ss) => fv_stmts(ss, 0, bound, acc),
        ExprV::Ident(n) => if has_name(bound, n) || has_name(acc, n) {
            acc
        } else {
            acc.push(n)
        },
        ExprV::Int(_) => acc,
        ExprV::Str(_) => acc,
        ExprV::Bool(_) => acc,
        ExprV::FnLit { params, body, capture } => fv_expr(*body, bound + params, acc),
        ExprV::CollLit(ps) => fv_pairs(ps, 0, bound, acc),
        ExprV::VecLit(es) => fv_exprs(es, 0, bound, acc),
        ExprV::Infix { op, lhs, rhs } => {
            let acc1 = fv_expr(*lhs, bound, acc);
            if op == TokenV::Operator(Operator::Dot) && *rhs is Ident {
                acc1
            } else {
                fv_expr(*rhs, bound, acc1)
            }
        },
        ExprV::Prefix { op, operand } => fv_expr(*operand, bound, acc),
        ExprV::Block(ss) => fv_stmts(ss, 0, bound, acc),
        ExprV::If { cond, cons, alt } => {
            let acc1 = fv_expr(*cond, bound, acc);
            let acc2 = fv_expr(*cons, bound, acc1);
            match alt {
                Some(a) => fv_expr(*a, bound, acc2),
                None => acc2,
            }
        },
        ExprV::Invoked { target, args } => fv_exprs(args, 0, bound, fv_expr(*target, bound, acc)),
        ExprV::Indexed { indexee, index } => fv_expr(*index, bound, fv_expr(*indexee, bound, acc)),
    }
}

/// Free-name collection over a statement list from index `i`; a `let`
/// binds its name for the statements after it.
pub open spec fn fv_stmts(
    ss: Seq<StmtV>,
    i: int,
    bound: Seq<Seq<char>>,
    acc: Seq<Seq<char>>,
) -> Seq<Seq<char>>
    decreases ss, ss.len() - i,
{
    if i < 0 || i >= ss.len() {
        acc
    } else {
        match ss[i] {
            StmtV::Let { name, value } => {
                let acc1 = fv_expr(value, bound, acc);
                fv_stmts(ss, i + 1, bound.push(name), acc1)
            },
            StmtV::Return(e) => fv_stmts(ss, i + 1, bound, fv_expr(e, bound, acc)),
            StmtV::Expr(e) => fv_stmts(ss, i + 1, bound, fv_expr(e, bound, acc)),
            StmtV::Empty => fv_stmts(ss, i + 1, bound, acc),
        }
    }
}

/// Free-name collection over an expression list from index `i`.
pub open spec fn fv_exprs(
    es: Seq<ExprV>,
    i: int,
    bound: Seq<Seq<char>>,
    acc: Seq<Seq<char>>,
) -> Seq<Seq<char>>
    decreases es, es.len() - i,
{
    if i < 0 || i >= es.len() {
        acc
    } else {
        fv_exprs(es, i + 1, bound, fv_expr(es[i], bound, acc))
    }
}

/// Free-name collection over collection members from index `i`; the keys
/// are not occurrences.
pub open spec fn fv_pairs(
    ps: Seq<(Seq<char>, ExprV)>,
    i: int,
    bound: Seq<Seq<char>>,
    acc: Seq<Seq<char>>,
) -> Seq<Seq<char>>
    decreases ps, ps.len() - i,
{
    if i < 0 || i >= ps.len() {
        acc
    } else {
        fv_pairs(ps, i + 1, bound, fv_expr(ps[i].1, bound, acc))
    }
}

/// The parser: the lexer it draws from, the two lookahead tokens, and the
/// parse errors recorded so far.
#[derive(Debug)]
pub struct Parser {
    pub lexer: Lexer,
    pub cur: Token,
    pub peek: Token,
    pub errors: Vec<Error>,
}

/// The ghost state of a parser.
pub open spec fn pstate(p: Parser) -> PState {
    PState {
        s: p.lexer.input@,
        pos: p.lexer.position as int,
        cur: token_view(&p.cur),
        peek: token_view(&p.peek),
        errs: perrs_view(p.errors@),
    }
}

impl Parser {
    /// Well-formedness: the lexer's cursor invariant holds.
    pub open spec fn wf(self) -> bool {
        self.lexer.wf()
    }

    /// A parser over `lexer`, with both lookahead tokens loaded: `cur` and
    /// `peek` are the input's first two tokens and no errors are recorded.
    pub fn new(lexer: Lexer) -> (r: Result<Parser, Error>)
        requires
            lexer.wf(),
        ensures
            match r {
                Ok(p) => p.wf() && pstate(p) == ({
                    let (t1, p1) = next_token_s(lexer.input@, lexer.position as int);
                    let (t2, p2) = next_token_s(lexer.input@, p1);
                    PState {
                        s: lexer.input@,
                        pos: p2,
                        cur: t1,
                        peek: t2,
                        errs: Seq::<PError>::empty(),
                    }
                }),
                Err(_) => false,
            },
    {
        let mut lexer = lexer;
        let cur = match lexer.next_token() {
            Ok(t) => t,
            Err(e) => {
                return Err(e);
            },
        };
        let peek = match lexer.next_token() {
            Ok(t) => t,
            Err(e) => {
                return Err(e);
            },
        };
        let r = Parser { lexer, cur, peek, errors: Vec::new() };
        proof {
            assert(perrs_view(r.errors@) =~= Seq::<PError>::empty());
        }
        Ok(r)
    }

    /// Shifts the lookahead one token: `cur` becomes the old `peek`, and
    /// `peek` is the next token the lexer yields; never fails.
    pub fn next_token(&mut self) -> (r: Result<(), Error>)
        requires
            old(self).wf(),
        ensures
            final(self).wf(),
            r is Ok,
            pstate(*final(self)) == p_adv(pstate(*old(self))),
    {
        core::mem::swap(&mut self.cur, &mut self.peek);
        let t = match self.lexer.next_token() {
            Ok(t) => t,
            Err(e) => {
                proof {
                    assert(false);
                }
                return Err(e);
            },
        };
        self.peek = t;
        Ok(())
    }

    /// Errors with `e` unless `f` accepts the peek token; on success the
    /// lookahead advances onto it.
    pub fn expect_peek<F: Fn(&Token) -> bool>(&mut self, f: F, e: Error) -> (r: Result<(), Error>)
        requires
            old(self).wf(),
            forall|t: &Token| #[trigger] f.requires((t,)),
        ensures
            final(self).wf(),
            match r {
                Ok(_) => f.ensures((&old(self).peek,), true) && pstate(*final(self)) == p_adv(
                    pstate(*old(self)),
                ),
                Err(e2) => e2 == e && *final(self) == *old(self) && f.ensures(
                    (&old(self).peek,),
                    false,
                ),
            },
    {
        if !f(&self.peek) {
            return Err(e);
        }
        let r = self.next_token();
        match r {
            Ok(_) => Ok(()),
            Err(e2) => Err(e2),
        }
    }

    /// Errors with `e` unless `f` accepts the current token; never moves.
    pub fn expect_cur<F: Fn(&Token) -> bool>(&mut self, f: F, e: Error) -> (r: Result<(), Error>)
        requires
            old(self).wf(),
            forall|t: &Token| #[trigger] f.requires((t,)),
        ensures
            *final(self) == *old(self),
            match r {
                Ok(_) => f.ensures((&old(self).cur,), true),
                Err(e2) => e2 == e && f.ensures((&old(self).cur,), false),
            },
    {
        if !f(&self.cur) {
            return Err(e);
        }
        Ok(())
    }

    /// The binding strength of the peek token.
    pub fn peek_precedence(&self) -> (r: Precedence)
        ensures
            r == prec_of(token_view(&self.peek)),
    {
        Self::precendence(&self.peek)
    }

    /// The binding strength of the current token.
    pub fn cur_precedence(&self) -> (r: Precedence)
        ensures
            r == prec_of(token_view(&self.cur)),
    {
        Self::precendence(&self.cur)
    }

    /// The binding strength a token has in infix position.
    pub fn precendence(t: &Token) -> (r: Precedence)
        ensures
            r == prec_of(token_view(t)),
    {
        match t {
            Token::LParen => Precedence::Invoke,
            Token::LBracket => Precedence::Invoke,
            Token::Operator(Operator::Dot) => Precedence::Invoke,
            Token::Operator(Operator::Divide) | Token::Operator(Operator::Multiply)
                => Precedence::Product,
            Token::Operator(Operator::Plus) | Token::Operator(Operator::Minus)
                | Token::Operator(Operator::Ampersand) | Token::Operator(Operator::Pipe)
                => Precedence::Sum,
            Token::Operator(Operator::Assign) | Token::Operator(Operator::PlusEqual)
                | Token::Operator(Operator::MinusEqual) => Precedence::Assign,
            Token::Operator(Operator::Equal) | Token::Operator(Operator::NotEqual)
                => Precedence::Equals,
            Token::Operator(Operator::Less) | Token::Operator(Operator::LessOrEqual)
                | Token::Operator(Operator::Greater) | Token::Operator(Operator::GreaterOrEqual)
                => Precedence::LessGreater,
            _ => Precedence::Lowest,
        }
    }

    /// Parses the whole input as one program: exactly the statements and
    /// error kinds of the specification parse of the input text; the
    /// parser's own error list is drained into the program.
    pub fn parse_program(&mut self) -> (r: Result<Program, Error>)
        requires
            old(self).wf(),
        ensures
            final(self).wf(),
            ({
                let (st2, stmts, errs) = parse_program_s(pstate(*old(self)));
                pstate(*final(self)) == st2 && match r {
                    Ok(p) => stmts_view(p.statements@) == stmts && perrs_view(p.errors@) == errs,
                    Err(_) => false,
                }
            }),
    {
        let acc: Vec<Statement> = Vec::new();
        proof {
            assert(stmts_view(acc@) =~= Seq::<StmtV>::empty());
        }
        let budget = parse_budget(self.lexer.length);
        let statements = self.parse_program_items(acc, budget);
        let mut errors: Vec<Error> = Vec::new();
        core::mem::swap(&mut errors, &mut self.errors);
        proof {
            assert(perrs_view(self.errors@) =~= Seq::<PError>::empty());
        }
        Ok(Program { statements, errors })
    }

    /// Parses statements up to the end of input, appending to `acc`; a
    /// failed statement records its error and parsing resumes at the next
    /// statement boundary.
    #[verifier::rlimit(50)]
    fn parse_program_items(&mut self, acc: Vec<Statement>, fuel: u64) -> (r: Vec<Statement>)
        requires
            old(self).wf(),
        ensures
            final(self).wf(),
            ({
                let (st2, stmts) = program_items_s(pstate(*old(self)), stmts_view(acc@), fuel as nat);
                pstate(*final(self)) == st2 && stmts_view(r@) == stmts
            }),
        decreases fuel, 0nat,
    {
        let mut acc = acc;
        if fuel == 0 {
            let e2 = Error::Unsupported(String::from_str("parsing budget exhausted"));
            proof {
                lemma_perrs_view_push(self.errors@, e2);
            }
            self.errors.push(e2);
            return acc;
        }
        if matches!(self.cur, Token::EOF) {
            return acc;
        }
        let parsed = self.parse_statement(fuel - 1);
        match parsed {
            Ok(statement) => {
                proof {
                    lemma_stmts_view_push(acc@, statement);
                }
                acc.push(statement);
                let moved = self.next_token();
                if moved.is_err() {
                    return acc;
                }
                self.parse_program_items(acc, fuel - 1)
            },
            Err(e) => {
                proof {
                    lemma_perrs_view_push(self.errors@, e);
                }
                self.errors.push(e);
                self.skip_statement(false, fuel - 1);
                if matches!(self.cur, Token::Semicolon) {
                    let moved = self.next_token();
                    if moved.is_err() {
                        return acc;
                    }
                    self.parse_program_items(acc, fuel - 1)
                } else {
                    acc
                }
            },
        }
    }

    /// Skips to the next statement boundary: a semicolon, the end of input,
    /// or (inside a block) the closing brace.
    fn skip_statement(&mut self, in_block: bool, fuel: u64)
        requires
            old(self).wf(),
        ensures
            final(self).wf(),
            pstate(*final(self)) == skip_s(pstate(*old(self)), in_block, fuel as nat),
        decreases fuel, 0nat,
    {
        if fuel == 0 {
            return ;
        }
        if matches!(self.cur, Token::Semicolon) || matches!(self.cur, Token::EOF) || (in_block
            && matches!(self.cur, Token::RBrace)) {
            return ;
        }
        let moved = self.next_token();
        if moved.is_err() {
            return ;
        }
        self.skip_statement(in_block, fuel - 1)
    }

    /// Parses one statement: `let`, `return`, a lone `;`, or an expression
    /// statement with an optional trailing semicolon.
    pub fn parse_statement(&mut self, fuel: u64) -> (r: Result<Statement, Error>)
        requires
            old(self).wf(),
        ensures
            final(self).wf(),
            ({
                let (st2, r2) = parse_statement_s(pstate(*old(self)), fuel as nat);
                pstate(*final(self)) == st2 && stmt_res(r) == r2
            }),
        decreases fuel, 1nat,
    {
        if fuel == 0 {
            return Err(Error::Unsupported(String::from_str("statement nesting too deep")));
        }
        match &self.cur {
            Token::Keyword(Keyword::Let) => match self.parse_let(fuel - 1) {
                Ok(l) => Ok(Statement::Let(l)),
                Err(e) => Err(e),
            },
            Token::Keyword(Keyword::Return) => match self.parse_return(fuel - 1) {
                Ok(t) => Ok(Statement::Return(t)),
                Err(e) => Err(e),
            },
            Token::Semicolon => Ok(Statement::Empty),
            _ => {
                let expression = self.parse_expression(Precedence::Lowest, fuel - 1)?;
                if matches!(self.peek, Token::Semicolon) {
                    self.next_token()?;
                }
                Ok(Statement::Expression(expression))
            },
        }
    }

    /// Parses `return EXPR ;`.
    pub fn parse_return(&mut self, fuel: u64) -> (r: Result<ReturnStatement, Error>)
        requires
            old(self).wf(),
        ensures
            final(self).wf(),
            ({
                let (st2, r2) = parse_return_s(pstate(*old(self)), fuel as nat);
                pstate(*final(self)) == st2 && ret_res(r) == r2
            }),
        decreases fuel, 1nat,
    {
        if fuel == 0 {
            return Err(Error::Unsupported(String::from_str("statement nesting too deep")));
        }
        self.next_token()?;
        let value = self.parse_expression(Precedence::Lowest, fuel - 1)?;
        if !matches!(self.peek, Token::Semicolon) {
            return Err(
                Error::LetStatement(String::from_str("expected a semicolon to end the statement")),
            );
        }
        self.next_token()?;
        Ok(ReturnStatement { value })
    }

    /// Parses `let NAME = EXPR ;`.
    fn parse_let(&mut self, fuel: u64) -> (r: Result<LetStatement, Error>)
        requires
            old(self).wf(),
        ensures
            final(self).wf(),
            ({
                let (st2, r2) = parse_let_s(pstate(*old(self)), fuel as nat);
                pstate(*final(self)) == st2 && let_res(r) == r2
            }),
        decreases fuel, 1nat,
    {
        if fuel == 0 {
            return Err(Error::Unsupported(String::from_str("statement nesting too deep")));
        }
        if !matches!(self.peek, Token::Ident(_)) {
            return Err(
                Error::LetStatement(
                    String::from_str("expected an identifier after the let keyword"),
                ),
            );
        }
        self.next_token()?;
        let name = match &self.cur {
            Token::Ident(n) => Ident { name: n.clone() },
            _ => {
                proof {
                    assert(false);
                }
                return Err(Error::ParseError);
            },
        };
        if !matches!(self.peek, Token::Operator(Operator::Assign)) {
            return Err(
                Error::LetStatement(
                    String::from_str("expected an assignment operator after the identifier"),
                ),
            );
        }
        self.next_token()?;
        self.next_token()?;
        let value = self.parse_expression(Precedence::Lowest, fuel - 1)?;
        if !matches!(self.peek, Token::Semicolon) {
            return Err(
                Error::LetStatement(String::from_str("expected a semicolon to end the statement")),
            );
        }
        self.next_token()?;
        Ok(LetStatement { name, value })
    }

    /// Parses one expression with the Pratt driver: a prefix (nud) handler
    /// chosen by the current token, then infix/call/index (led) handlers
    /// while the peek token binds more strongly than `precedence`.
    pub fn parse_expression(&mut self, precedence: Precedence, fuel: u64) -> (r: Result<
        Expression,
        Error,
    >)
        requires
            old(self).wf(),
        ensures
            final(self).wf(),
            ({
                let (st2, r2) = parse_expression_s(
                    pstate(*old(self)),
                    prec_val(precedence),
                    fuel as nat,
                );
                pstate(*final(self)) == st2 && expr_res(r) == r2
            }),
        decreases fuel, 1nat,
    {
        if fuel == 0 {
            return Err(Error::Unsupported(String::from_str("expression nesting too deep")));
        }
        let nud = match &self.cur {
            Token::LParen => self.parse_grouped(fuel - 1),
            Token::LBrace => {
                if matches!(self.peek, Token::Operator(Operator::Dot)) {
                    self.parse_collection(fuel - 1)
                } else {
                    self.parse_block(fuel - 1)
                }
            },
            Token::LBracket => self.parse_vector(fuel - 1),
            Token::Ident(_) => self.parse_ident(),
            Token::Int(_) => self.parse_int(),
            Token::Str(_) => self.parse_str(),
            Token::Keyword(Keyword::If) => self.parse_if(fuel - 1),
            Token::Keyword(Keyword::True) | Token::Keyword(Keyword::False) => self.parse_bool(),
            Token::Keyword(Keyword::Function) => self.parse_function(fuel - 1),
            Token::Operator(Operator::Bang) | Token::Operator(Operator::Minus) => self.parse_prefix(
                fuel - 1,
            ),
            _ => Err(Error::ParseError),
        };
        match nud {
            Ok(lhs) => {
                let min_prec = precedence.level();
                self.parse_led(lhs, min_prec, fuel)
            },
            Err(e) => Err(e),
        }
    }

    /// The Pratt driver's infix loop: while the peek token is not a
    /// semicolon and binds more strongly than `min_prec`, take it as a
    /// binary operator, an invocation or an index.
    fn parse_led(&mut self, lhs: Expression, min_prec: i32, fuel: u64) -> (r: Result<
        Expression,
        Error,
    >)
        requires
            old(self).wf(),
        ensures
            final(self).wf(),
            ({
                let (st2, r2) = parse_led_s(
                    pstate(*old(self)),
                    expr_view(lhs),
                    min_prec as int,
                    fuel as nat,
                );
                pstate(*final(self)) == st2 && expr_res(r) == r2
            }),
        decreases fuel, 0nat,
    {
        if fuel == 0 {
            return Err(Error::Unsupported(String::from_str("expression nesting too deep")));
        }
        if matches!(self.peek, Token::Semicolon) || self.peek_precedence().level() <= min_prec {
            return Ok(lhs);
        }
        let is_op = matches!(
            &self.peek,
            Token::Operator(
                Operator::Assign | Operator::Plus | Operator::Minus | Operator::Divide
                    | Operator::Multiply | Operator::Equal | Operator::NotEqual | Operator::Less
                    | Operator::LessOrEqual | Operator::Greater | Operator::GreaterOrEqual
                    | Operator::Dot | Operator::Ampersand | Operator::Pipe | Operator::PlusEqual
                    | Operator::MinusEqual,
            ),
        );
        if is_op {
            self.next_token()?;
            match self.parse_infix_operator(lhs, fuel - 1) {
                Ok(lhs2) => self.parse_led(lhs2, min_prec, fuel - 1),
                Err(e) => Err(e),
            }
        } else if matches!(self.peek, Token::LParen) {
            self.next_token()?;
            match self.parse_invoke(lhs, fuel - 1) {
                Ok(lhs2) => self.parse_led(lhs2, min_prec, fuel - 1),
                Err(e) => Err(e),
            }
        } else if matches!(self.peek, Token::LBracket) {
            self.next_token()?;
            match self.parse_index(lhs, fuel - 1) {
                Ok(lhs2) => self.parse_led(lhs2, min_prec, fuel - 1),
                Err(e) => Err(e),
            }
        } else {
            Ok(lhs)
        }
    }

    /// Parses the right side of a binary operator under the cursor. The
    /// right side binds as strongly as the operator itself, so equal
    /// precedence associates leftwards — except `=`, whose right side
    /// binds weakest, making assignment right-associative
    /// (`a = b = c` is `a = (b = c)`).
    fn parse_infix_operator(&mut self, lhs: Expression, fuel: u64) -> (r: Result<
        Expression,
        Error,
    >)
        requires
            old(self).wf(),
        ensures
            final(self).wf(),
            ({
                let (st2, r2) = parse_infix_operator_s(
                    pstate(*old(self)),
                    expr_view(lhs),
                    fuel as nat,
                );
                pstate(*final(self)) == st2 && expr_res(r) == r2
            }),
        decreases fuel, 1nat,
    {
        if fuel == 0 {
            return Err(Error::Unsupported(String::from_str("expression nesting too deep")));
        }
        let precedence = if matches!(self.cur, Token::Operator(Operator::Assign)) {
            Precedence::Lowest
        } else {
            self.cur_precedence()
        };
        let operator = self.cur.clone();
        self.next_token()?;
        let rhs = Box::new(self.parse_expression(precedence, fuel - 1)?);
        Ok(Expression::Infix { operator, lhs: Box::new(lhs), rhs })
    }

    /// Parses a prefix expression: `!` or unary `-` applied to an operand.
    fn parse_prefix(&mut self, fuel: u64) -> (r: Result<Expression, Error>)
        requires
            old(self).wf(),
        ensures
            final(self).wf(),
            ({
                let (st2, r2) = parse_prefix_s(pstate(*old(self)), fuel as nat);
                pstate(*final(self)) == st2 && expr_res(r) == r2
            }),
        decreases fuel, 1nat,
    {
        if fuel == 0 {
            return Err(Error::Unsupported(String::from_str("expression nesting too deep")));
        }
        let operator = self.cur.clone();
        self.next_token()?;
        let operand = Box::new(self.parse_expression(Precedence::Prefix, fuel - 1)?);
        Ok(Expression::Prefix { operator, operand })
    }

    /// Parses an invocation of `lhs`; the cursor sits on the opening
    /// parenthesis.
    pub fn parse_invoke(&mut self, lhs: Expression, fuel: u64) -> (r: Result<Expression, Error>)
        requires
            old(self).wf(),
        ensures
            final(self).wf(),
            ({
                let (st2, r2) = parse_invoke_s(pstate(*old(self)), expr_view(lhs), fuel as nat);
                pstate(*final(self)) == st2 && expr_res(r) == r2
            }),
        decreases fuel, 1nat,
    {
        let acc: Vec<Expression> = Vec::new();
        proof {
            assert(exprs_view(acc@) =~= Seq::<ExprV>::empty());
        }
        match self.parse_invoke_args(acc, fuel) {
            Ok(args) => Ok(Expression::Invoked { invoked: Box::new(lhs), args }),
            Err(e) => Err(e),
        }
    }

    /// Parses comma-separated invocation arguments until the closing
    /// parenthesis, appending to `acc`.
    fn parse_invoke_args(&mut self, acc: Vec<Expression>, fuel: u64) -> (r: Result<
        Vec<Expression>,
        Error,
    >)
        requires
            old(self).wf(),
        ensures
            final(self).wf(),
            ({
                let (st2, r2) = invoke_args_s(pstate(*old(self)), exprs_view(acc@), fuel as nat);
                pstate(*final(self)) == st2 && match r {
                    Ok(es) => r2 == Ok::<Seq<ExprV>, PError>(exprs_view(es@)),
                    Err(e) => r2 == Err::<Seq<ExprV>, PError>(perr_view(e)),
                }
            }),
        decreases fuel, 0nat,
    {
        let mut acc = acc;
        if fuel == 0 {
            return Err(Error::Unsupported(String::from_str("expression nesting too deep")));
        }
        if matches!(self.peek, Token::RParen) {
            self.next_token()?;
            return Ok(acc);
        }
        if matches!(self.cur, Token::EOF) {
            return Err(
                Error::FunctionError(
                    String::from_str("expected a closing parenthesis after the arguments"),
                ),
            );
        }
        self.next_token()?;
        let arg = self.parse_expression(Precedence::Lowest, fuel - 1)?;
        proof {
            lemma_exprs_view_push(acc@, arg);
        }
        acc.push(arg);
        if matches!(self.peek, Token::Comma) {
            self.next_token()?;
        }
        self.parse_invoke_args(acc, fuel - 1)
    }

    /// Parses an indexing of `lhs`; the cursor sits on the opening bracket.
    fn parse_index(&mut self, lhs: Expression, fuel: u64) -> (r: Result<Expression, Error>)
        requires
            old(self).wf(),
        ensures
            final(self).wf(),
            ({
                let (st2, r2) = parse_index_s(pstate(*old(self)), expr_view(lhs), fuel as nat);
                pstate(*final(self)) == st2 && expr_res(r) == r2
            }),
        decreases fuel, 1nat,
    {
        if fuel == 0 {
            return Err(Error::Unsupported(String::from_str("expression nesting too deep")));
        }
        self.next_token()?;
        let index = self.parse_expression(Precedence::Lowest, fuel - 1)?;
        if !matches!(self.peek, Token::RBracket) {
            return Err(
                Error::Unsupported(String::from_str("expected a closing bracket after the index")),
            );
        }
        self.next_token()?;
        Ok(Expression::Indexed { indexee: Box::new(lhs), index: Box::new(index) })
    }

    /// Parses a vector literal; the cursor sits on the opening bracket.
    fn parse_vector(&mut self, fuel: u64) -> (r: Result<Expression, Error>)
        requires
            old(self).wf(),
        ensures
            final(self).wf(),
            ({
                let (st2, r2) = parse_vector_s(pstate(*old(self)), fuel as nat);
                pstate(*final(self)) == st2 && expr_res(r) == r2
            }),
        decreases fuel, 1nat,
    {
        let acc: Vec<Expression> = Vec::new();
        proof {
            assert(exprs_view(acc@) =~= Seq::<ExprV>::empty());
        }
        match self.parse_vector_items(acc, fuel) {
            Ok(elements) => Ok(Expression::Literal(Literal::Vector { elements })),
            Err(e) => Err(e),
        }
    }

    /// Parses comma-separated vector elements until the closing bracket,
    /// appending to `acc`.
    fn parse_vector_items(&mut self, acc: Vec<Expression>, fuel: u64) -> (r: Result<
        Vec<Expression>,
        Error,
    >)
        requires
            old(self).wf(),
        ensures
            final(self).wf(),
            ({
                let (st2, r2) = vector_items_s(pstate(*old(self)), exprs_view(acc@), fuel as nat);
                pstate(*final(self)) == st2 && match r {
                    Ok(es) => r2 == Ok::<Seq<ExprV>, PError>(exprs_view(es@)),
                    Err(e) => r2 == Err::<Seq<ExprV>, PError>(perr_view(e)),
                }
            }),
        decreases fuel, 0nat,
    {
        let mut acc = acc;
        if fuel == 0 {
            return Err(Error::Unsupported(String::from_str("expression nesting too deep")));
        }
        if matches!(self.peek, Token::RBracket) {
            self.next_token()?;
            return Ok(acc);
        }
        if matches!(self.cur, Token::EOF) {
            return Err(
                Error::Unsupported(
                    String::from_str("expected a closing bracket after the elements"),
                ),
            );
        }
        self.next_token()?;
        let element = self.parse_expression(Precedence::Lowest, fuel - 1)?;
        proof {
            lemma_exprs_view_push(acc@, element);
        }
        acc.push(element);
        if matches!(self.peek, Token::Comma) {
            self.next_token()?;
        }
        self.parse_vector_items(acc, fuel - 1)
    }

    /// Parses a collection literal; the cursor sits on the opening brace,
    /// with a dot peeked.
    fn parse_collection(&mut self, fuel: u64) -> (r: Result<Expression, Error>)
        requires
            old(self).wf(),
        ensures
            final(self).wf(),
            ({
                let (st2, r2) = parse_collection_s(pstate(*old(self)), fuel as nat);
                pstate(*final(self)) == st2 && expr_res(r) == r2
            }),
        decreases fuel, 1nat,
    {
        let acc: Vec<(Ident, Expression)> = Vec::new();
        proof {
            assert(pairs_view(acc@) =~= Seq::<(Seq<char>, ExprV)>::empty());
        }
        match self.parse_collection_items(acc, fuel) {
            Ok(members) => Ok(Expression::Literal(Literal::Collection { members })),
            Err(e) => Err(e),
        }
    }

    /// Parses `.name = expr` members until the closing brace, appending to
    /// `acc`.
    fn parse_collection_items(&mut self, acc: Vec<(Ident, Expression)>, fuel: u64) -> (r: Result<
        Vec<(Ident, Expression)>,
        Error,
    >)
        requires
            old(self).wf(),
        ensures
            final(self).wf(),
            ({
                let (st2, r2) = collection_items_s(pstate(*old(self)), pairs_view(acc@), fuel as nat);
                pstate(*final(self)) == st2 && match r {
                    Ok(ms) => r2 == Ok::<Seq<(Seq<char>, ExprV)>, PError>(pairs_view(ms@)),
                    Err(e) => r2 == Err::<Seq<(Seq<char>, ExprV)>, PError>(perr_view(e)),
                }
            }),
        decreases fuel, 0nat,
    {
        let mut acc = acc;
        if fuel == 0 {
            return Err(Error::Unsupported(String::from_str("expression nesting too deep")));
        }
        if !matches!(self.peek, Token::Operator(Operator::Dot)) || matches!(self.cur, Token::EOF) {
            if matches!(self.peek, Token::RBrace) {
                self.next_token()?;
                return Ok(acc);
            }
            return Err(
                Error::Collection(String::from_str("expected a closing brace after the members")),
            );
        }
        self.next_token()?;
        if !matches!(self.peek, Token::Ident(_)) {
            return Err(
                Error::Collection(String::from_str("expected a member name after the dot")),
            );
        }
        self.next_token()?;
        let name = match &self.cur {
            Token::Ident(n) => Ident { name: n.clone() },
            _ => {
                proof {
                    assert(false);
                }
                return Err(Error::ParseError);
            },
        };
        if !matches!(self.peek, Token::Operator(Operator::Assign)) {
            return Err(
                Error::Collection(
                    String::from_str("expected an assignment after the member name"),
                ),
            );
        }
        self.next_token()?;
        self.next_token()?;
        let value = self.parse_expression(Precedence::Lowest, fuel - 1)?;
        proof {
            lemma_pairs_view_push(acc@, (name, value));
        }
        acc.push((name, value));
        if matches!(self.peek, Token::Comma) {
            self.next_token()?;
        }
        self.parse_collection_items(acc, fuel - 1)
    }

    /// Parses a function literal `fn ( ident , ... ) BLOCK` and computes
    /// its capture list: the free identifiers of the body that are neither
    /// parameters nor bound by an earlier `let` in the same body, in first
    /// occurrence order, without duplicates.
    pub fn parse_function(&mut self, fuel: u64) -> (r: Result<Expression, Error>)
        requires
            old(self).wf(),
        ensures
            final(self).wf(),
            ({
                let (st2, r2) = parse_function_s(pstate(*old(self)), fuel as nat);
                pstate(*final(self)) == st2 && expr_res(r) == r2
            }),
        decreases fuel, 1nat,
    {
        if fuel == 0 {
            return Err(Error::Unsupported(String::from_str("expression nesting too deep")));
        }
        if !matches!(self.peek, Token::LParen) {
            return Err(
                Error::FunctionError(
                    String::from_str("expected a parenthesis after the fn keyword"),
                ),
            );
        }
        self.next_token()?;
        self.next_token()?;
        let acc: Vec<Ident> = Vec::new();
        proof {
            assert(idents_view(acc@) =~= Seq::<Seq<char>>::empty());
        }
        let parameters = self.parse_fn_params(acc, fuel - 1);
        if !matches!(self.cur, Token::RParen) {
            return Err(
                Error::FunctionError(
                    String::from_str("expected a closing parenthesis after the parameters"),
                ),
            );
        }
        if !matches!(self.peek, Token::LBrace) {
            return Err(Error::FunctionError(String::from_str("expected a function body")));
        }
        self.next_token()?;
        let body = self.parse_block(fuel - 1)?;
        let bound = param_names(&parameters);
        let fv_acc: Vec<Ident> = Vec::new();
        proof {
            assert(idents_view(fv_acc@) =~= Seq::<Seq<char>>::empty());
        }
        let capture = free_names(&body, &bound, fv_acc);
        Ok(Expression::Literal(Literal::Function { parameters, body: Box::new(body), capture }))
    }

    /// Parses comma-separated parameter names, appending to `acc`; the
    /// cursor sits on the first parameter or the closing parenthesis.
    fn parse_fn_params(&mut self, acc: Vec<Ident>, fuel: u64) -> (r: Vec<Ident>)
        requires
            old(self).wf(),
        ensures
            final(self).wf(),
            ({
                let (st2, ps) = fn_params_s(pstate(*old(self)), idents_view(acc@), fuel as nat);
                pstate(*final(self)) == st2 && idents_view(r@) == ps
            }),
        decreases fuel, 0nat,
    {
        let mut acc = acc;
        if fuel == 0 {
            return acc;
        }
        let name = match &self.cur {
            Token::Ident(n) => Ident { name: n.clone() },
            _ => {
                return acc;
            },
        };
        if matches!(self.peek, Token::Comma) {
            let moved = self.next_token();
            if moved.is_err() {
                return acc;
            }
        }
        let moved = self.next_token();
        if moved.is_err() {
            return acc;
        }
        proof {
            lemma_idents_view_push(acc@, name);
        }
        acc.push(name);
        self.parse_fn_params(acc, fuel - 1)
    }

    /// Parses `if COND BLOCK` with an optional `else BLOCK`.
    pub fn parse_if(&mut self, fuel: u64) -> (r: Result<Expression, Error>)
        requires
            old(self).wf(),
        ensures
            final(self).wf(),
            ({
                let (st2, r2) = parse_if_s(pstate(*old(self)), fuel as nat);
                pstate(*final(self)) == st2 && expr_res(r) == r2
            }),
        decreases fuel, 1nat,
    {
        if fuel == 0 {
            return Err(Error::Unsupported(String::from_str("expression nesting too deep")));
        }
        self.next_token()?;
        let condition = Box::new(self.parse_expression(Precedence::Lowest, fuel - 1)?);
        if !matches!(self.peek, Token::LBrace) {
            return Err(
                Error::IfError(
                    String::from_str("expected an expression block after the condition"),
                ),
            );
        }
        self.next_token()?;
        let consequence = Box::new(self.parse_block(fuel - 1)?);
        if !matches!(self.peek, Token::Keyword(Keyword::Else)) {
            return Ok(Expression::If { condition, consequence, alternative: None });
        }
        self.next_token()?;
        if !matches!(self.peek, Token::LBrace) {
            return Err(
                Error::IfError(String::from_str("expected an expression block after else")),
            );
        }
        self.next_token()?;
        let alternative = Some(Box::new(self.parse_block(fuel - 1)?));
        Ok(Expression::If { condition, consequence, alternative })
    }

    /// Parses a block; the cursor sits on the opening brace. Statement
    /// errors are recorded and parsing resumes at the next statement
    /// boundary inside the block.
    pub fn parse_block(&mut self, fuel: u64) -> (r: Result<Expression, Error>)
        requires
            old(self).wf(),
        ensures
            final(self).wf(),
            ({
                let (st2, r2) = parse_block_s(pstate(*old(self)), fuel as nat);
                pstate(*final(self)) == st2 && expr_res(r) == r2
            }),
        decreases fuel, 1nat,
    {
        if fuel == 0 {
            return Err(Error::Unsupported(String::from_str("expression nesting too deep")));
        }
        self.next_token()?;
        let acc: Vec<Statement> = Vec::new();
        proof {
            assert(stmts_view(acc@) =~= Seq::<StmtV>::empty());
        }
        let statements = self.parse_block_items(acc, fuel - 1);
        Ok(Expression::Block { statements })
    }

    /// Parses the statements of a block until its closing brace, appending
    /// to `acc`.
    fn parse_block_items(&mut self, acc: Vec<Statement>, fuel: u64) -> (r: Vec<Statement>)
        requires
            old(self).wf(),
        ensures
            final(self).wf(),
            ({
                let (st2, stmts) = block_items_s(pstate(*old(self)), stmts_view(acc@), fuel as nat);
                pstate(*final(self)) == st2 && stmts_view(r@) == stmts
            }),
        decreases fuel, 0nat,
    {
        let mut acc = acc;
        if fuel == 0 {
            let e2 = Error::Unsupported(String::from_str("parsing budget exhausted"));
            proof {
                lemma_perrs_view_push(self.errors@, e2);
            }
            self.errors.push(e2);
            return acc;
        }
        if matches!(self.cur, Token::RBrace) || matches!(self.cur, Token::EOF) {
            return acc;
        }
        let parsed = self.parse_statement(fuel - 1);
        match parsed {
            Ok(statement) => {
                proof {
                    lemma_stmts_view_push(acc@, statement);
                }
                acc.push(statement);
                let moved = self.next_token();
                if moved.is_err() {
                    return acc;
                }
                self.parse_block_items(acc, fuel - 1)
            },
            Err(e) => {
                proof {
                    lemma_perrs_view_push(self.errors@, e);
                }
                self.errors.push(e);
                self.skip_statement(true, fuel - 1);
                if matches!(self.cur, Token::Semicolon) {
                    let moved = self.next_token();
                    if moved.is_err() {
                        return acc;
                    }
                    self.parse_block_items(acc, fuel - 1)
                } else {
                    acc
                }
            },
        }
    }

    /// Parses a parenthesised expression; it must close with `)`.
    fn parse_grouped(&mut self, fuel: u64) -> (r: Result<Expression, Error>)
        requires
            old(self).wf(),
        ensures
            final(self).wf(),
            ({
                let (st2, r2) = parse_grouped_s(pstate(*old(self)), fuel as nat);
                pstate(*final(self)) == st2 && expr_res(r) == r2
            }),
        decreases fuel, 1nat,
    {
        if fuel == 0 {
            return Err(Error::Unsupported(String::from_str("expression nesting too deep")));
        }
        self.next_token()?;
        let expression = self.parse_expression(Precedence::Lowest, fuel - 1)?;
        if !matches!(self.peek, Token::RParen) {
            return Err(Error::ParseError);
        }
        self.next_token()?;
        Ok(expression)
    }

    /// Parses an integer literal from the current token.
    fn parse_int(&mut self) -> (r: Result<Expression, Error>)
        ensures
            *final(self) == *old(self),
            match token_view(&old(self).cur) {
                TokenV::Int(v) => r == Ok::<Expression, Error>(
                    Expression::Literal(Literal::Int(v)),
                ),
                _ => r is Err,
            },
    {
        match &self.cur {
            Token::Int(value) => Ok(Expression::Literal(Literal::Int(*value))),
            _ => Err(Error::ParseError),
        }
    }

    /// Parses an identifier expression from the current token.
    fn parse_ident(&mut self) -> (r: Result<Expression, Error>)
        ensures
            *final(self) == *old(self),
            match token_view(&old(self).cur) {
                TokenV::Ident(n) => match r {
                    Ok(ex) => expr_view(ex) == ExprV::Ident(n),
                    Err(_) => false,
                },
                _ => r is Err,
            },
    {
        match &self.cur {
            Token::Ident(name) => Ok(Expression::Ident(Ident { name: name.clone() })),
            _ => Err(Error::ParseError),
        }
    }

    /// Parses a string literal expression from the current token.
    fn parse_str(&mut self) -> (r: Result<Expression, Error>)
        ensures
            *final(self) == *old(self),
            match token_view(&old(self).cur) {
                TokenV::Str(s) => match r {
                    Ok(ex) => expr_view(ex) == ExprV::Str(s),
                    Err(_) => false,
                },
                _ => r is Err,
            },
    {
        match &self.cur {
            Token::Str(text) => Ok(Expression::Literal(Literal::Str(text.clone()))),
            _ => Err(Error::ParseError),
        }
    }

    /// Parses `true` or `false` from the current token.
    fn parse_bool(&mut self) -> (r: Result<Expression, Error>)
        ensures
            *final(self) == *old(self),
            match token_view(&old(self).cur) {
                TokenV::Keyword(Keyword::True) => r == Ok::<Expression, Error>(
                    Expression::Literal(Literal::Bool(Bool::True)),
                ),
                TokenV::Keyword(Keyword::False) => r == Ok::<Expression, Error>(
                    Expression::Literal(Literal::Bool(Bool::False)),
                ),
                _ => r is Err,
            },
    {
        match &self.cur {
            Token::Keyword(Keyword::True) => Ok(Expression::Literal(Literal::Bool(Bool::True))),
            Token::Keyword(Keyword::False) => Ok(Expression::Literal(Literal::Bool(Bool::False))),
            _ => Err(Error::ParseError),
        }
    }
}

/// The texts of a list of identifiers.
fn param_names(params: &Vec<Ident>) -> (r: Vec<String>)
    ensures
        strings_view(r@) == idents_view(params@),
{
    let mut r: Vec<String> = Vec::new();
    let mut i: usize = 0;
    proof {
        lemma_idents_view(params@);
        assert(strings_view(r@) =~= Seq::<Seq<char>>::empty());
        assert(idents_view(params@).take(0) =~= Seq::<Seq<char>>::empty());
    }
    #[verifier::loop_isolation(false)]
    while i < params.len()
        invariant
            i <= params@.len(),
            strings_view(r@) == idents_view(params@).take(i as int),
        decreases params@.len() - i,
    {
        let name = params[i].name.clone();
        proof {
            lemma_strings_view_push(r@, name);
            assert(idents_view(params@).take(i + 1) =~= idents_view(params@).take(i as int).push(
                idents_view(params@)[i as int],
            ));
        }
        r.push(name);
        i = i + 1;
    }
    proof {
        assert(idents_view(params@).take(params@.len() as int) =~= idents_view(params@));
    }
    r
}

/// Whether `v` holds the word `n`.
fn has_word(v: &Vec<String>, n: &String) -> (r: bool)
    ensures
        r == has_name(strings_view(v@), n@),
{
    proof {
        lemma_has_name(strings_view(v@), n@);
        lemma_strings_view(v@);
    }
    let mut i: usize = 0;
    #[verifier::loop_isolation(false)]
    while i < v.len()
        invariant
            i <= v@.len(),
            forall|j: int| 0 <= j < i ==> strings_view(v@)[j] != n@,
        decreases v@.len() - i,
    {
        if v[i] == *n {
            proof {
                assert(strings_view(v@)[i as int] == n@);
            }
            return true;
        }
        i = i + 1;
    }
    false
}

/// Whether `v` holds an identifier named `n`.
fn has_ident(v: &Vec<Ident>, n: &String) -> (r: bool)
    ensures
        r == has_name(idents_view(v@), n@),
{
    proof {
        lemma_has_name(idents_view(v@), n@);
        lemma_idents_view(v@);
    }
    let mut i: usize = 0;
    #[verifier::loop_isolation(false)]
    while i < v.len()
        invariant
            i <= v@.len(),
            forall|j: int| 0 <= j < i ==> idents_view(v@)[j] != n@,
        decreases v@.len() - i,
    {
        if v[i].name == *n {
            proof {
                assert(idents_view(v@)[i as int] == n@);
            }
            return true;
        }
        i = i + 1;
    }
    false
}

/// The free identifiers of `e`, appended to `acc` in first-occurrence
/// order without duplicates; names in `bound` are skipped.
fn free_names(e: &Expression, bound: &Vec<String>, acc: Vec<Ident>) -> (r: Vec<Ident>)
    ensures
        idents_view(r@) == fv_expr(expr_view(*e), strings_view(bound@), idents_view(acc@)),
    decreases e, 1nat,
{
    match e {
        Expression::Program(p) => free_names_stmts(&p.statements, 0, bound.clone(), acc),
        Expression::Ident(i) => {
            if has_word(bound, &i.name) || has_ident(&acc, &i.name) {
                acc
            } else {
                let mut acc = acc;
                proof {
                    lemma_idents_view_push(acc@, *i);
                }
                acc.push(i.clone());
                acc
            }
        },
        Expression::Literal(l) => match l {
            Literal::Int(_) => acc,
            Literal::Str(_) => acc,
            Literal::Bool(_) => acc,
            Literal::Function { parameters, body, capture: _ } => {
                let mut inner_bound = bound.clone();
                let names = param_names(parameters);
                let mut names = names;
                let ghost b0 = strings_view(bound@);
                proof {
                    lemma_strings_concat(inner_bound@, names@);
                }
                inner_bound.append(&mut names);
                free_names(body, &inner_bound, acc)
            },
            Literal::Collection { members } => free_names_members(members, 0, bound, acc),
            Literal::Vector { elements } => free_names_list(elements, 0, bound, acc),
        },
        Expression::Infix { operator, lhs, rhs } => {
            let acc1 = free_names(lhs, bound, acc);
            if matches!(operator, Token::Operator(Operator::Dot)) && matches!(
                **rhs,
                Expression::Ident(_),
            ) {
                acc1
            } else {
                free_names(rhs, bound, acc1)
            }
        },
        Expression::Prefix { operator: _, operand } => free_names(operand, bound, acc),
        Expression::Block { statements } => free_names_stmts(statements, 0, bound.clone(), acc),
        Expression::If { condition, consequence, alternative } => {
            let acc1 = free_names(condition, bound, acc);
            let acc2 = free_names(consequence, bound, acc1);
            match alternative {
                Some(a) => free_names(a, bound, acc2),
                None => acc2,
            }
        },
        Expression::Invoked { invoked, args } => {
            let acc1 = free_names(invoked, bound, acc);
            free_names_list(args, 0, bound, acc1)
        },
        Expression::Indexed { indexee, index } => {
            let acc1 = free_names(indexee, bound, acc);
            free_names(index, bound, acc1)
        },
    }
}

/// `strings_view` distributes over concatenation.
proof fn lemma_strings_concat(a: Seq<String>, b: Seq<String>)
    ensures
        strings_view(a + b) == strings_view(a) + strings_view(b),
    decreases a.len(),
{
    if a.len() == 0 {
        assert(a + b =~= b);
        assert(strings_view(a) + strings_view(b) =~= strings_view(b));
    } else {
        assert((a + b).drop_first() =~= a.drop_first() + b);
        lemma_strings_concat(a.drop_first(), b);
        assert((a + b)[0] == a[0]);
        assert(strings_view(a + b) =~= strings_view(a) + strings_view(b));
    }
}

/// Free-name collection over a statement list; a `let` binds its name for
/// the statements after it.
fn free_names_stmts(ss: &Vec<Statement>, i: usize, bound: Vec<String>, acc: Vec<Ident>) -> (r: Vec<
    Ident,
>)
    requires
        i <= ss@.len(),
    ensures
        idents_view(r@) == fv_stmts(
            stmts_view(ss@),
            i as int,
            strings_view(bound@),
            idents_view(acc@),
        ),
    decreases ss@, ss@.len() - i,
{
    proof {
        crate::ast::lemma_stmts_view(ss@);
    }
    if i == ss.len() {
        acc
    } else {
        match &ss[i] {
            Statement::Let(l) => {
                let acc1 = free_names(&l.value, &bound, acc);
                let mut bound = bound;
                let cloned = l.name.name.clone();
                proof {
                    lemma_strings_view_push(bound@, cloned);
                }
                bound.push(cloned);
                free_names_stmts(ss, i + 1, bound, acc1)
            },
            Statement::Return(t) => {
                let acc1 = free_names(&t.value, &bound, acc);
                free_names_stmts(ss, i + 1, bound, acc1)
            },
            Statement::Expression(e) => {
                let acc1 = free_names(e, &bound, acc);
                free_names_stmts(ss, i + 1, bound, acc1)
            },
            Statement::Empty => free_names_stmts(ss, i + 1, bound, acc),
        }
    }
}

/// Free-name collection over an expression list.
fn free_names_list(es: &Vec<Expression>, i: usize, bound: &Vec<String>, acc: Vec<Ident>) -> (r:
    Vec<Ident>)
    requires
        i <= es@.len(),
    ensures
        idents_view(r@) == fv_exprs(
            exprs_view(es@),
            i as int,
            strings_view(bound@),
            idents_view(acc@),
        ),
    decreases es@, es@.len() - i,
{
    proof {
        crate::ast::lemma_exprs_view(es@);
    }
    if i == es.len() {
        acc
    } else {
        let acc1 = free_names(&es[i], bound, acc);
        free_names_list(es, i + 1, bound, acc1)
    }
}

/// Free-name collection over a collection literal's members; the keys are
/// not occurrences.
fn free_names_members(
    ms: &Vec<(Ident, Expression)>,
    i: usize,
    bound: &Vec<String>,
    acc: Vec<Ident>,
) -> (r: Vec<Ident>)
    requires
        i <= ms@.len(),
    ensures
        idents_view(r@) == fv_pairs(
            pairs_view(ms@),
            i as int,
            strings_view(bound@),
            idents_view(acc@),
        ),
    decreases ms@, ms@.len() - i,
{
    proof {
        crate::ast::lemma_pairs_view(ms@);
    }
    if i == ms.len() {
        acc
    } else {
        let acc1 = free_names(&ms[i].1, bound, acc);
        free_names_members(ms, i + 1, bound, acc1)
    }
}

} // verus!
