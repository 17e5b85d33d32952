//! The library's laws: properties of the lexer, the environment stack and
//! the evaluator, stated over the same specification functions that the
//! executable functions' contracts use, and proved once and for all.

use vstd::prelude::*;

use crate::eval::{
    bind_pairs_s, call_frame, eval_expr_s, eval_invoke_s, eval_stmts_s, snap_captures, ResV,
    StateV,
};
use crate::lexer::{is_letter_c, next_token_s, skip_ws};
use crate::object::ValueV;
use crate::stack::{
    fr_add, fr_assign, fr_pop, fr_push, frames_get, initial_frame, lookup_binds, on_active,
    FrameV,
};
use crate::parser::{
    led_op, p_adv, parse_expression_s, parse_infix_operator_s, parse_led_s, parse_program_s,
    prec_of, prec_val, PError, PState,
};
use crate::token::{keyword_of, op_text, keyword_text, Keyword, Operator, TokenV};
use crate::ast::ExprV;

verus! {

/// Lexing the canonical text of an operator yields exactly that operator
/// token, consuming the whole text, and the next token after it is `EOF`.
pub proof fn law_lexer_round_trip_operator(o: Operator)
    ensures
        ({
            let text = op_text(o);
            let (t1, p1) = next_token_s(text, 0);
            let (t2, _) = next_token_s(text, p1);
            t1 == TokenV::Operator(o) && p1 == text.len() && t2 == TokenV::EOF
        }),
{
    let text = op_text(o);
    assert(skip_ws(text, 0) == 0);
    assert(skip_ws(text, text.len() as int) == text.len() as int);
    match o {
        Operator::Assign => {
            assert(text =~= seq!['=']);
        },
        Operator::Plus => {
            assert(text =~= seq!['+']);
        },
        Operator::Minus => {
            assert(text =~= seq!['-']);
        },
        Operator::Divide => {
            assert(text =~= seq!['/']);
        },
        Operator::Multiply => {
            assert(text =~= seq!['*']);
        },
        Operator::PlusEqual => {
            assert(text =~= seq!['+', '=']);
        },
        Operator::MinusEqual => {
            assert(text =~= seq!['-', '=']);
        },
        Operator::Dot => {
            assert(text =~= seq!['.']);
        },
        Operator::Bang => {
            assert(text =~= seq!['!']);
        },
        Operator::Less => {
            assert(text =~= seq!['<']);
        },
        Operator::Greater => {
            assert(text =~= seq!['>']);
        },
        Operator::LessOrEqual => {
            assert(text =~= seq!['<', '=']);
        },
        Operator::GreaterOrEqual => {
            assert(text =~= seq!['>', '=']);
        },
        Operator::Equal => {
            assert(text =~= seq!['=', '=']);
        },
        Operator::NotEqual => {
            assert(text =~= seq!['!', '=']);
        },
        Operator::And => {
            assert(text =~= seq!['&', '&']);
        },
        Operator::Or => {
            assert(text =~= seq!['|', '|']);
        },
        Operator::Ampersand => {
            assert(text =~= seq!['&']);
        },
        Operator::Pipe => {
            assert(text =~= seq!['|']);
        },
        Operator::RightArrow => {
            assert(text =~= seq!['-', '>']);
        },
        Operator::LeftArrow => {
            assert(text =~= seq!['<', '-']);
        },
    }
}

/// A run of identifier characters scans to the end of the text.
proof fn lemma_ident_end_letters(s: Seq<char>, i: int)
    requires
        0 <= i <= s.len(),
        forall|k: int| 0 <= k < s.len() ==> is_letter_c(#[trigger] s[k]),
    ensures
        crate::lexer::ident_end(s, i) == s.len(),
    decreases s.len() - i,
{
    if i < s.len() {
        lemma_ident_end_letters(s, i + 1);
    }
}

/// Lexing the canonical text of a keyword yields exactly that keyword
/// token, consuming the whole text, and the next token after it is `EOF`.
pub proof fn law_lexer_round_trip_keyword(k: Keyword)
    ensures
        ({
            let text = keyword_text(k);
            let (t1, p1) = next_token_s(text, 0);
            let (t2, _) = next_token_s(text, p1);
            t1 == TokenV::Keyword(k) && p1 == text.len() && t2 == TokenV::EOF
        }),
{
    let text = keyword_text(k);
    match k {
        Keyword::Let => {
            reveal_strlit("let");
            assert(text.len() == 3);
            assert(is_letter_c(text[0]) && is_letter_c(text[1]) && is_letter_c(text[2]));
            assert forall|k: int| 0 <= k < text.len() implies is_letter_c(#[trigger] text[k]) by {
                assert(k == 0 || k == 1 || k == 2);
            }
            lemma_ident_end_letters(text, 0);
            assert(text.subrange(0, text.len() as int) =~= text);
            assert(keyword_of(text) == Some(Keyword::Let));
        },
        Keyword::Function => {
            reveal_strlit("fn");
            assert(text.len() == 2);
            assert(is_letter_c(text[0]) && is_letter_c(text[1]));
            assert forall|k: int| 0 <= k < text.len() implies is_letter_c(#[trigger] text[k]) by {
                assert(k == 0 || k == 1);
            }
            lemma_ident_end_letters(text, 0);
            assert(text.subrange(0, text.len() as int) =~= text);
            assert(keyword_of(text) == Some(Keyword::Function)) by {
                reveal_strlit("let");
                assert(text != "let"@);
            }
        },
        Keyword::If => {
            reveal_strlit("if");
            assert(text.len() == 2);
            assert(is_letter_c(text[0]) && is_letter_c(text[1]));
            assert forall|k: int| 0 <= k < text.len() implies is_letter_c(#[trigger] text[k]) by {
                assert(k == 0 || k == 1);
            }
            lemma_ident_end_letters(text, 0);
            assert(text.subrange(0, text.len() as int) =~= text);
            assert(keyword_of(text) == Some(Keyword::If)) by {
                reveal_strlit("let");
                reveal_strlit("fn");
                assert(text != "let"@);
                assert(text != "fn"@);
            }
        },
        Keyword::Else => {
            reveal_strlit("else");
            assert(text.len() == 4);
            assert(is_letter_c(text[0]) && is_letter_c(text[1]) && is_letter_c(text[2]) && is_letter_c(text[3]));
            assert forall|k: int| 0 <= k < text.len() implies is_letter_c(#[trigger] text[k]) by {
                assert(k == 0 || k == 1 || k == 2 || k == 3);
            }
            lemma_ident_end_letters(text, 0);
            assert(text.subrange(0, text.len() as int) =~= text);
            assert(keyword_of(text) == Some(Keyword::Else)) by {
                reveal_strlit("let");
                reveal_strlit("fn");
                reveal_strlit("if");
                assert(text != "let"@);
                assert(text != "fn"@);
                assert(text != "if"@);
            }
        },
        Keyword::True => {
            reveal_strlit("true");
            assert(text.len() == 4);
            assert(is_letter_c(text[0]) && is_letter_c(text[1]) && is_letter_c(text[2]) && is_letter_c(text[3]));
            assert forall|k: int| 0 <= k < text.len() implies is_letter_c(#[trigger] text[k]) by {
                assert(k == 0 || k == 1 || k == 2 || k == 3);
            }
            lemma_ident_end_letters(text, 0);
            assert(text.subrange(0, text.len() as int) =~= text);
            assert(keyword_of(text) == Some(Keyword::True)) by {
                reveal_strlit("let");
                reveal_strlit("fn");
                reveal_strlit("if");
                reveal_strlit("else");
                assert(text != "let"@);
                assert(text != "fn"@);
                assert(text != "if"@);
                assert(text != "else"@);
            }
        },
        Keyword::False => {
            reveal_strlit("false");
            assert(text.len() == 5);
            assert(is_letter_c(text[0]) && is_letter_c(text[1]) && is_letter_c(text[2]) && is_letter_c(text[3]) && is_letter_c(text[4]));
            assert forall|k: int| 0 <= k < text.len() implies is_letter_c(#[trigger] text[k]) by {
                assert(k == 0 || k == 1 || k == 2 || k == 3 || k == 4);
            }
            lemma_ident_end_letters(text, 0);
            assert(text.subrange(0, text.len() as int) =~= text);
            assert(keyword_of(text) == Some(Keyword::False)) by {
                reveal_strlit("let");
                reveal_strlit("fn");
                reveal_strlit("if");
                reveal_strlit("else");
                reveal_strlit("true");
                assert(text != "let"@);
                assert(text != "fn"@);
                assert(text != "if"@);
                assert(text != "else"@);
                assert(text != "true"@);
            }
        },
        Keyword::Return => {
            reveal_strlit("return");
            assert(text.len() == 6);
            assert(is_letter_c(text[0]) && is_letter_c(text[1]) && is_letter_c(text[2]) && is_letter_c(text[3]) && is_letter_c(text[4]) && is_letter_c(text[5]));
            assert forall|k: int| 0 <= k < text.len() implies is_letter_c(#[trigger] text[k]) by {
                assert(k == 0 || k == 1 || k == 2 || k == 3 || k == 4 || k == 5);
            }
            lemma_ident_end_letters(text, 0);
            assert(text.subrange(0, text.len() as int) =~= text);
            assert(keyword_of(text) == Some(Keyword::Return)) by {
                reveal_strlit("let");
                reveal_strlit("fn");
                reveal_strlit("if");
                reveal_strlit("else");
                reveal_strlit("true");
                reveal_strlit("false");
                assert(text != "let"@);
                assert(text != "fn"@);
                assert(text != "if"@);
                assert(text != "else"@);
                assert(text != "true"@);
                assert(text != "false"@);
            }
        },
    }
}

/// Lexing the text of any identifier — a non-empty run of ASCII letters
/// and underscores that is not a reserved word — yields exactly that
/// identifier token, consuming the whole text, and the next token after
/// it is `EOF`.
pub proof fn law_lexer_round_trip_ident(n: Seq<char>)
    requires
        n.len() > 0,
        forall|k: int| 0 <= k < n.len() ==> is_letter_c(#[trigger] n[k]),
        keyword_of(n) is None,
    ensures
        ({
            let (t1, p1) = next_token_s(n, 0);
            let (t2, _) = next_token_s(n, p1);
            t1 == TokenV::Ident(n) && p1 == n.len() && t2 == TokenV::EOF
        }),
{
    assert(skip_ws(n, 0) == 0);
    lemma_ident_end_letters(n, 0);
    assert(n.subrange(0, n.len() as int) =~= n);
    assert(skip_ws(n, n.len() as int) == n.len() as int);
}

/// A run of digits scans to the end of the text.
proof fn lemma_int_end_digits(s: Seq<char>, i: int)
    requires
        0 <= i <= s.len(),
        forall|k: int| 0 <= k < s.len() ==> crate::lexer::is_digit_c(#[trigger] s[k]),
    ensures
        crate::lexer::int_end(s, i) == s.len(),
    decreases s.len() - i,
{
    if i < s.len() {
        lemma_int_end_digits(s, i + 1);
    }
}

/// Lexing the text of any integer literal — a non-empty run of digits
/// whose value fits a signed 32-bit integer — yields exactly that integer
/// token, consuming the whole text, and the next token after it is `EOF`.
pub proof fn law_lexer_round_trip_int(d: Seq<char>)
    requires
        d.len() > 0,
        forall|k: int| 0 <= k < d.len() ==> crate::lexer::is_digit_c(#[trigger] d[k]),
        crate::lexer::digits_val(d, 0, d.len() as int, 0) <= i32::MAX,
    ensures
        ({
            let (t1, p1) = next_token_s(d, 0);
            let (t2, _) = next_token_s(d, p1);
            &&& t1 == TokenV::Int(crate::lexer::digits_val(d, 0, d.len() as int, 0) as i32)
            &&& p1 == d.len()
            &&& t2 == TokenV::EOF
        }),
{
    assert(skip_ws(d, 0) == 0);
    lemma_int_end_digits(d, 0);
    assert(skip_ws(d, d.len() as int) == d.len() as int);
}

/// The scan for a string body stops exactly at the closing quote.
proof fn lemma_str_end_run(s: Seq<char>, i: int, j: int)
    requires
        0 <= i <= j < s.len(),
        forall|k: int| i <= k < j ==> s[k] != '"' && #[trigger] s[k] != '\u{0}',
        s[j] == '"',
    ensures
        crate::lexer::str_end(s, i) == j,
    decreases j - i,
{
    if i < j {
        lemma_str_end_run(s, i + 1, j);
    }
}

/// Lexing a quoted string — a quote, any body free of quotes and NUL, a
/// quote — yields exactly that string token with the body as its text,
/// consuming the whole literal, and the next token after it is `EOF`.
pub proof fn law_lexer_round_trip_string(body: Seq<char>)
    requires
        forall|k: int| 0 <= k < body.len() ==> body[k] != '"' && #[trigger] body[k] != '\u{0}',
    ensures
        ({
            let text = seq!['"'] + body + seq!['"'];
            let (t1, p1) = next_token_s(text, 0);
            let (t2, _) = next_token_s(text, p1);
            t1 == TokenV::Str(body) && p1 == text.len() && t2 == TokenV::EOF
        }),
{
    let text = seq!['"'] + body + seq!['"'];
    assert(skip_ws(text, 0) == 0);
    assert(text[0] == '"');
    assert(text[text.len() - 1] == '"');
    assert forall|k: int| 1 <= k < text.len() - 1 implies text[k] != '"' && #[trigger] text[k]
        != '\u{0}' by {
        assert(text[k] == body[k - 1]);
    }
    lemma_str_end_run(text, 1, text.len() - 1);
    assert(text.subrange(1, text.len() - 1) =~= body);
    assert(skip_ws(text, text.len() as int) == text.len() as int);
}

/// Lexing a single punctuation character — a brace, bracket, parenthesis,
/// semicolon or comma — yields exactly its token, and the next token after
/// it is `EOF`.
pub proof fn law_lexer_round_trip_punctuation(c: char)
    requires
        c == '{' || c == '}' || c == '(' || c == ')' || c == '[' || c == ']' || c == ';' || c
            == ',',
    ensures
        ({
            let text = seq![c];
            let (t1, p1) = next_token_s(text, 0);
            let (t2, _) = next_token_s(text, p1);
            t1 == crate::lexer::single_tok(c) && !(t1 is Illegal) && p1 == 1 && t2 == TokenV::EOF
        }),
{
    let text = seq![c];
    assert(skip_ws(text, 0) == 0);
    assert(skip_ws(text, 1) == 1);
}

/// Scoping: after entering a scope, binding any names in it and leaving
/// it, the frame is exactly what it was: names introduced in the block are
/// gone, and a shadowed outer binding is visible again.
pub proof fn law_scope_restores(f: FrameV, n: Seq<char>, v: ValueV)
    requires
        f.binds.len() <= usize::MAX,
    ensures
        fr_pop(fr_add(fr_push(f), n, v)) == f,
        frames_get(
            on_active(seq![f], fr_pop(fr_add(fr_push(f), n, v))),
            n,
        ) == frames_get(seq![f], n),
{
    let pushed = fr_push(f);
    let added = fr_add(pushed, n, v);
    assert(added.marks.last() == f.binds.len() as usize);
    assert(added.binds.take(f.binds.len() as int) =~= f.binds);
    assert(added.marks.drop_last() =~= f.marks);
    assert(fr_pop(added) == f);
    assert(on_active(seq![f], f) =~= seq![f]);
}

/// Closure capture, construction side: evaluating a function literal
/// snapshots, for each capture name, the value it has in the declaring
/// scope at that moment; the environment itself is untouched.
pub proof fn law_capture_snapshot(
    st: StateV,
    params: Seq<Seq<char>>,
    body: ExprV,
    capture: Seq<Seq<char>>,
    fuel: nat,
    i: int,
)
    requires
        0 <= i < capture.len(),
        forall|j: int| 0 <= j < capture.len() ==> #[trigger] frames_get(
            st.frames,
            capture[j],
        ) is Some,
    ensures
        ({
            let (st2, r) = eval_expr_s(
                st,
                ExprV::FnLit { params, body: Box::new(body), capture },
                fuel,
            );
            &&& st2 == st
            &&& match r {
                ResV::Cont(ValueV::Function { params: ps, body: b, capture: c }) => c.len()
                    == capture.len() && c[i] == (capture[i], frames_get(st.frames, capture[i])->0),
                _ => false,
            }
        }),
{
    lemma_snap_captures(st.frames, capture);
}

/// When every capture name is bound, the snapshot succeeds and pairs each
/// name with its current value, in order.
proof fn lemma_snap_captures(fs: Seq<FrameV>, names: Seq<Seq<char>>)
    requires
        forall|j: int| 0 <= j < names.len() ==> #[trigger] frames_get(fs, names[j]) is Some,
    ensures
        snap_captures(fs, names) matches Some(c) && c.len() == names.len() && forall|i: int|
            0 <= i < names.len() ==> #[trigger] snap_captures(fs, names)->0[i] == (
                names[i],
                frames_get(fs, names[i])->0,
            ),
    decreases names.len(),
{
    if names.len() > 0 {
        assert(frames_get(fs, names[0]) is Some);
        lemma_snap_captures(fs, names.drop_first());
        let c0 = snap_captures(fs, names.drop_first())->0;
        assert forall|i: int| 0 <= i < names.len() implies #[trigger] snap_captures(
            fs,
            names,
        )->0[i] == (names[i], frames_get(fs, names[i])->0) by {
            if i > 0 {
                assert(snap_captures(fs, names)->0[i] == c0[i - 1]);
                assert(names.drop_first()[i - 1] == names[i]);
            }
        }
    }
}

/// Closure capture, call side: a function value is invoked on argument
/// values alone. The frame its body runs in holds only the built-ins, the
/// parameters and the captured bindings; in particular, a captured name is
/// seen with its snapshotted value, not with whatever binding the caller's
/// environment has for it, and the caller's frames are out of reach.
pub proof fn law_call_sees_capture(
    params: Seq<Seq<char>>,
    args: Seq<ValueV>,
    capture: Seq<(Seq<char>, ValueV)>,
    i: int,
)
    requires
        0 <= i < capture.len(),
        forall|j: int| 0 <= j < capture.len() ==> (#[trigger] capture[j]).0 != capture[i].0 || j
            <= i,
    ensures
        lookup_binds(call_frame(params, args, capture).binds, capture[i].0) == Some(capture[i].1),
{
    let base = crate::eval::bind_args_s(initial_frame(), params, args);
    lemma_bind_pairs_last(base, capture, i);
}

/// After binding a pair list, the most recent binding for a name bound at
/// `i` and not re-bound later is its pair's value.
proof fn lemma_bind_pairs_last(f: FrameV, ps: Seq<(Seq<char>, ValueV)>, i: int)
    requires
        0 <= i < ps.len(),
        forall|j: int| 0 <= j < ps.len() ==> (#[trigger] ps[j]).0 != ps[i].0 || j <= i,
    ensures
        lookup_binds(bind_pairs_s(f, ps).binds, ps[i].0) == Some(ps[i].1),
    decreases ps.len(),
{
    if i == 0 {
        lemma_bind_pairs_skips(fr_add(f, ps[0].0, ps[0].1), ps.drop_first(), ps[0].0);
    } else {
        assert forall|j: int| 0 <= j < ps.drop_first().len() implies (#[trigger] ps.drop_first()[j]).0
            != ps.drop_first()[i - 1].0 || j <= i - 1 by {
            assert(ps.drop_first()[j] == ps[j + 1]);
            assert(ps.drop_first()[i - 1] == ps[i]);
        }
        lemma_bind_pairs_last(fr_add(f, ps[0].0, ps[0].1), ps.drop_first(), i - 1);
        assert(ps.drop_first()[i - 1] == ps[i]);
    }
}

/// Binding pairs that never bind `n` leaves the most recent binding for
/// `n` where it was.
proof fn lemma_bind_pairs_skips(f: FrameV, ps: Seq<(Seq<char>, ValueV)>, n: Seq<char>)
    requires
        forall|j: int| 0 <= j < ps.len() ==> #[trigger] ps[j].0 != n,
    ensures
        lookup_binds(bind_pairs_s(f, ps).binds, n) == lookup_binds(f.binds, n),
    decreases ps.len(),
{
    if ps.len() > 0 {
        assert(ps[0].0 != n);
        lemma_bind_pairs_skips(fr_add(f, ps[0].0, ps[0].1), ps.drop_first(), n);
        assert(fr_add(f, ps[0].0, ps[0].1).binds.drop_last() =~= f.binds);
    }
}

/// Return unwinding, block side: a `Break` produced by a block's
/// statements leaves the block as the same `Break`, unchanged; the block's
/// scope is still popped on the way out.
pub proof fn law_break_passes_blocks(st: StateV, ss: Seq<crate::ast::StmtV>, fuel: nat, v: ValueV)
    requires
        ({
            let st1 = crate::eval::with_frames(
                st,
                on_active(st.frames, fr_push(st.frames.last())),
            );
            eval_stmts_s(st1, ss, fuel).1 == ResV::Brk(v)
        }),
    ensures
        eval_expr_s(st, ExprV::Block(ss), fuel).1 == ResV::Brk(v),
        ({
            let st1 = crate::eval::with_frames(
                st,
                on_active(st.frames, fr_push(st.frames.last())),
            );
            let (st2, _) = eval_stmts_s(st1, ss, fuel);
            eval_expr_s(st, ExprV::Block(ss), fuel).0 == crate::eval::with_frames(
                st2,
                on_active(st2.frames, fr_pop(st2.frames.last())),
            )
        }),
{
}

/// Return unwinding, call side: `return` exits the enclosing function call
/// exactly. An invocation never hands a `Break` out of the called body or
/// the built-in it ran: whatever unwinds inside a function is unwrapped
/// into an ordinary value at the call boundary. The only `Break` an
/// invocation can yield comes from a `return` met while evaluating the
/// callee or argument expressions, and those belong to the caller.
pub proof fn law_return_stops_at_call(st: StateV, e: ExprV, fuel: nat)
    requires
        e matches ExprV::Invoked { target, args },
        ({
            let (st1, r) = eval_expr_s(st, *e->Invoked_target, fuel);
            let (st2, ar) = crate::eval::eval_exprs_s(st1, e->Invoked_args, fuel);
            r matches ResV::Cont(fv) && ar matches crate::eval::ArgsV::Vals(vs)
        }),
    ensures
        !(eval_invoke_s(st, e, fuel).1 is Brk),
{
}


/// `st` with `pre` put underneath its frames.
pub open spec fn lift_state(pre: Seq<FrameV>, st: StateV) -> StateV {
    StateV { frames: pre + st.frames, out: st.out }
}

/// The relation frame locality establishes: running over the lifted state
/// gives the same result and output, the same frames with the prefix still
/// underneath, and the frame count is preserved.
pub open spec fn lifted_outcome(
    pre: Seq<FrameV>,
    st: StateV,
    a: (StateV, ResV),
    b: (StateV, ResV),
) -> bool {
    &&& b.1 == a.1
    &&& b.0.out == a.0.out
    &&& b.0.frames == pre + a.0.frames
    &&& a.0.frames.len() == st.frames.len()
}

/// Name lookup only sees the active frame, so a prefix underneath changes
/// nothing.
proof fn l_get(pre: Seq<FrameV>, fs: Seq<FrameV>, n: Seq<char>)
    requires
        fs.len() >= 1,
    ensures
        frames_get(pre + fs, n) == frames_get(fs, n),
{
    assert((pre + fs).last() == fs.last());
}

/// Capture snapshots only see the active frame.
proof fn loc_snap(pre: Seq<FrameV>, fs: Seq<FrameV>, names: Seq<Seq<char>>)
    requires
        fs.len() >= 1,
    ensures
        snap_captures(pre + fs, names) == snap_captures(fs, names),
    decreases names.len(),
{
    if names.len() > 0 {
        l_get(pre, fs, names[0]);
        loc_snap(pre, fs, names.drop_first());
    }
}

/// Frame locality for statements.
proof fn loc_stmt(pre: Seq<FrameV>, st: StateV, s: crate::ast::StmtV, fuel: nat)
    requires
        st.frames.len() >= 1,
    ensures
        lifted_outcome(
            pre,
            st,
            crate::eval::eval_stmt_s(st, s, fuel),
            crate::eval::eval_stmt_s(lift_state(pre, st), s, fuel),
        ),
    decreases fuel, s, 4nat,
{
    match s {
        crate::ast::StmtV::Let { name, value } => {
            loc_expr(pre, st, value, fuel);
            let (st1, r) = eval_expr_s(st, value, fuel);
            match r {
                ResV::Cont(v) => {
                    assert(on_active(pre + st1.frames, fr_assign((pre + st1.frames).last(), name, v))
                        =~= pre + on_active(st1.frames, fr_assign(st1.frames.last(), name, v)));
                },
                _ => {},
            }
        },
        crate::ast::StmtV::Return(e) => loc_expr(pre, st, e, fuel),
        crate::ast::StmtV::Expr(e) => loc_expr(pre, st, e, fuel),
        crate::ast::StmtV::Empty => {},
    }
}

/// Frame locality for statement lists.
proof fn loc_stmts(pre: Seq<FrameV>, st: StateV, ss: Seq<crate::ast::StmtV>, fuel: nat)
    requires
        st.frames.len() >= 1,
    ensures
        lifted_outcome(
            pre,
            st,
            eval_stmts_s(st, ss, fuel),
            eval_stmts_s(lift_state(pre, st), ss, fuel),
        ),
    decreases fuel, ss, 4nat,
{
    if ss.len() > 0 {
        loc_stmt(pre, st, ss[0], fuel);
        let (st1, r) = crate::eval::eval_stmt_s(st, ss[0], fuel);
        match r {
            ResV::Cont(_) => {
                if ss.len() > 1 {
                    loc_stmts(pre, st1, ss.drop_first(), fuel);
                }
            },
            _ => {},
        }
    }
}

/// Frame locality for expression lists.
proof fn loc_exprs(pre: Seq<FrameV>, st: StateV, es: Seq<ExprV>, fuel: nat)
    requires
        st.frames.len() >= 1,
    ensures
        ({
            let (a_st, a_r) = crate::eval::eval_exprs_s(st, es, fuel);
            let (b_st, b_r) = crate::eval::eval_exprs_s(lift_state(pre, st), es, fuel);
            &&& b_r == a_r
            &&& b_st.out == a_st.out
            &&& b_st.frames == pre + a_st.frames
            &&& a_st.frames.len() == st.frames.len()
        }),
    decreases fuel, es, 4nat,
{
    if es.len() > 0 {
        loc_expr(pre, st, es[0], fuel);
        let (st1, r) = eval_expr_s(st, es[0], fuel);
        match r {
            ResV::Cont(_) => {
                loc_exprs(pre, st1, es.drop_first(), fuel);
            },
            _ => {},
        }
    }
}

/// Frame locality for collection-literal member lists.
proof fn loc_pairs(
    pre: Seq<FrameV>,
    st: StateV,
    ps: Seq<(Seq<char>, ExprV)>,
    acc: Seq<(Seq<char>, crate::object::ValueV)>,
    fuel: nat,
)
    requires
        st.frames.len() >= 1,
    ensures
        ({
            let (a_st, a_r) = crate::eval::eval_pairs_s(st, ps, acc, fuel);
            let (b_st, b_r) = crate::eval::eval_pairs_s(lift_state(pre, st), ps, acc, fuel);
            &&& b_r == a_r
            &&& b_st.out == a_st.out
            &&& b_st.frames == pre + a_st.frames
            &&& a_st.frames.len() == st.frames.len()
        }),
    decreases fuel, ps, 4nat,
{
    if ps.len() > 0 {
        loc_expr(pre, st, ps[0].1, fuel);
        let (st1, r) = eval_expr_s(st, ps[0].1, fuel);
        match r {
            ResV::Cont(v) => {
                loc_pairs(pre, st1, ps.drop_first(), crate::object::coll_set(acc, ps[0].0, v), fuel);
            },
            _ => {},
        }
    }
}

/// Frame locality for expressions: evaluation reads and writes the active
/// frame only, so frames underneath it ride along untouched.
proof fn loc_expr(pre: Seq<FrameV>, st: StateV, e: ExprV, fuel: nat)
    requires
        st.frames.len() >= 1,
    ensures
        lifted_outcome(
            pre,
            st,
            eval_expr_s(st, e, fuel),
            eval_expr_s(lift_state(pre, st), e, fuel),
        ),
    decreases fuel, e, 4nat,
{
    match e {
        ExprV::Program(ss) => loc_stmts(pre, st, ss, fuel),
        ExprV::Ident(n) => {
            l_get(pre, st.frames, n);
        },
        ExprV::Int(_) => {},
        ExprV::Str(_) => {},
        ExprV::Bool(_) => {},
        ExprV::FnLit { params, body, capture } => {
            loc_snap(pre, st.frames, capture);
        },
        ExprV::CollLit(ps) => {
            loc_pairs(pre, st, ps, Seq::empty(), fuel);
        },
        ExprV::VecLit(es) => {
            loc_exprs(pre, st, es, fuel);
        },
        ExprV::Infix { .. } => loc_infix(pre, st, e, fuel),
        ExprV::Prefix { op, operand } => {
            loc_expr(pre, st, *operand, fuel);
        },
        ExprV::Block(ss) => {
            assert(on_active(pre + st.frames, fr_push((pre + st.frames).last())) =~= pre
                + on_active(st.frames, fr_push(st.frames.last())));
            let st1 = crate::eval::with_frames(
                st,
                on_active(st.frames, fr_push(st.frames.last())),
            );
            loc_stmts(pre, st1, ss, fuel);
            let (st2, _) = eval_stmts_s(st1, ss, fuel);
            assert(on_active(pre + st2.frames, fr_pop((pre + st2.frames).last())) =~= pre
                + on_active(st2.frames, fr_pop(st2.frames.last())));
        },
        ExprV::If { .. } => loc_if(pre, st, e, fuel),
        ExprV::Invoked { .. } => loc_invoke(pre, st, e, fuel),
        ExprV::Indexed { .. } => loc_index(pre, st, e, fuel),
    }
}

/// Frame locality for infix expressions.
proof fn loc_infix(pre: Seq<FrameV>, st: StateV, e: ExprV, fuel: nat)
    requires
        st.frames.len() >= 1,
    ensures
        lifted_outcome(
            pre,
            st,
            crate::eval::eval_infix_s(st, e, fuel),
            crate::eval::eval_infix_s(lift_state(pre, st), e, fuel),
        ),
    decreases fuel, e, 2nat,
{
    match e {
        ExprV::Infix { op, lhs, rhs } => {
            if op == crate::token::TokenV::Operator(Operator::Assign) || op
                == crate::token::TokenV::Operator(Operator::PlusEqual) || op
                == crate::token::TokenV::Operator(Operator::MinusEqual) {
                loc_assign(pre, st, e, fuel);
            } else if op == crate::token::TokenV::Operator(Operator::Dot) {
                loc_access(pre, st, e, fuel);
            } else {
                loc_expr(pre, st, *lhs, fuel);
                let (st1, r1) = eval_expr_s(st, *lhs, fuel);
                match r1 {
                    ResV::Cont(_) => {
                        loc_expr(pre, st1, *rhs, fuel);
                    },
                    _ => {},
                }
            }
        },
        _ => {},
    }
}

/// Frame locality for assignments.
proof fn loc_assign(pre: Seq<FrameV>, st: StateV, e: ExprV, fuel: nat)
    requires
        st.frames.len() >= 1,
    ensures
        lifted_outcome(
            pre,
            st,
            crate::eval::eval_assign_s(st, e, fuel),
            crate::eval::eval_assign_s(lift_state(pre, st), e, fuel),
        ),
    decreases fuel, e, 1nat,
{
    match e {
        ExprV::Infix { op, lhs, rhs } => match *lhs {
            ExprV::Ident(name) => {
                loc_expr(pre, st, *rhs, fuel);
                let (st1, r) = eval_expr_s(st, *rhs, fuel);
                match r {
                    ResV::Cont(v) => {
                        assert(on_active(
                            pre + st1.frames,
                            fr_assign((pre + st1.frames).last(), name, v),
                        ) =~= pre + on_active(st1.frames, fr_assign(st1.frames.last(), name, v)));
                        l_get(pre, st1.frames, name);
                        match frames_get(st1.frames, name) {
                            Some(cur) => {
                                let o = if op == crate::token::TokenV::Operator(
                                    Operator::PlusEqual,
                                ) {
                                    Operator::Plus
                                } else {
                                    Operator::Minus
                                };
                                match crate::object::binop_s(o, cur, v) {
                                    Some(v2) => {
                                        assert(on_active(
                                            pre + st1.frames,
                                            fr_assign((pre + st1.frames).last(), name, v2),
                                        ) =~= pre + on_active(
                                            st1.frames,
                                            fr_assign(st1.frames.last(), name, v2),
                                        ));
                                    },
                                    None => {},
                                }
                            },
                            None => {},
                        }
                    },
                    _ => {},
                }
            },
            ExprV::Infix { op: inner_op, lhs: coll_e, rhs: accessor } => {
                if op == crate::token::TokenV::Operator(Operator::Assign) && inner_op
                    == crate::token::TokenV::Operator(Operator::Dot) {
                    loc_access_assign(pre, st, e, fuel);
                } else {
                    loc_expr(
                        pre,
                        st,
                        ExprV::Infix { op: inner_op, lhs: coll_e, rhs: accessor },
                        fuel,
                    );
                }
            },
            _ => {
                loc_expr(pre, st, *lhs, fuel);
            },
        },
        _ => {},
    }
}

/// Frame locality for member assignment.
proof fn loc_access_assign(pre: Seq<FrameV>, st: StateV, e: ExprV, fuel: nat)
    requires
        st.frames.len() >= 1,
    ensures
        lifted_outcome(
            pre,
            st,
            crate::eval::eval_access_assign_s(st, e, fuel),
            crate::eval::eval_access_assign_s(lift_state(pre, st), e, fuel),
        ),
    decreases fuel, e, 0nat,
{
    match e {
        ExprV::Infix { op, lhs, rhs } => match *lhs {
            ExprV::Infix { op: inner_op, lhs: coll_e, rhs: accessor } => {
                loc_expr(pre, st, *coll_e, fuel);
                let (st1, r1) = eval_expr_s(st, *coll_e, fuel);
                match r1 {
                    ResV::Cont(crate::object::ValueV::Collection(ms)) => match *accessor {
                        ExprV::Ident(member) => {
                            loc_expr(pre, st1, *rhs, fuel);
                            let (st2, r2) = eval_expr_s(st1, *rhs, fuel);
                            match r2 {
                                ResV::Cont(v) => {
                                    let updated = crate::object::ValueV::Collection(
                                        crate::object::coll_set(ms, member, v),
                                    );
                                    match *coll_e {
                                        ExprV::Ident(cname) => {
                                            assert(on_active(
                                                pre + st2.frames,
                                                crate::stack::fr_update(
                                                    (pre + st2.frames).last(),
                                                    cname,
                                                    updated,
                                                ),
                                            ) =~= pre + on_active(
                                                st2.frames,
                                                crate::stack::fr_update(
                                                    st2.frames.last(),
                                                    cname,
                                                    updated,
                                                ),
                                            ));
                                        },
                                        _ => {},
                                    }
                                },
                                _ => {},
                            }
                        },
                        _ => {},
                    },
                    _ => {},
                }
            },
            _ => {},
        },
        _ => {},
    }
}

/// Frame locality for member access.
proof fn loc_access(pre: Seq<FrameV>, st: StateV, e: ExprV, fuel: nat)
    requires
        st.frames.len() >= 1,
    ensures
        lifted_outcome(
            pre,
            st,
            crate::eval::eval_access_s(st, e, fuel),
            crate::eval::eval_access_s(lift_state(pre, st), e, fuel),
        ),
    decreases fuel, e, 1nat,
{
    match e {
        ExprV::Infix { op, lhs, rhs } => {
            loc_expr(pre, st, *lhs, fuel);
            let (st1, r) = eval_expr_s(st, *lhs, fuel);
            match r {
                ResV::Cont(crate::object::ValueV::Collection(_)) => match *rhs {
                    ExprV::Ident(_) => {},
                    _ => {
                        loc_expr(pre, st1, *rhs, fuel);
                    },
                },
                _ => {},
            }
        },
        _ => {},
    }
}

/// Frame locality for conditionals.
proof fn loc_if(pre: Seq<FrameV>, st: StateV, e: ExprV, fuel: nat)
    requires
        st.frames.len() >= 1,
    ensures
        lifted_outcome(
            pre,
            st,
            crate::eval::eval_if_s(st, e, fuel),
            crate::eval::eval_if_s(lift_state(pre, st), e, fuel),
        ),
    decreases fuel, e, 2nat,
{
    match e {
        ExprV::If { cond, cons, alt } => {
            loc_expr(pre, st, *cond, fuel);
            let (st1, r) = eval_expr_s(st, *cond, fuel);
            match r {
                ResV::Cont(cv) => {
                    if crate::object::truthy_s(cv) {
                        loc_expr(pre, st1, *cons, fuel);
                    } else {
                        match alt {
                            Some(a) => loc_expr(pre, st1, *a, fuel),
                            None => {},
                        }
                    }
                },
                _ => {},
            }
        },
        _ => {},
    }
}

/// Frame locality for indexing.
proof fn loc_index(pre: Seq<FrameV>, st: StateV, e: ExprV, fuel: nat)
    requires
        st.frames.len() >= 1,
    ensures
        lifted_outcome(
            pre,
            st,
            crate::eval::eval_index_s(st, e, fuel),
            crate::eval::eval_index_s(lift_state(pre, st), e, fuel),
        ),
    decreases fuel, e, 2nat,
{
    match e {
        ExprV::Indexed { indexee, index } => {
            loc_expr(pre, st, *index, fuel);
            let (st1, r1) = eval_expr_s(st, *index, fuel);
            match r1 {
                ResV::Cont(_) => {
                    loc_expr(pre, st1, *indexee, fuel);
                },
                _ => {},
            }
        },
        _ => {},
    }
}

/// Frame locality for invocations: the pushed call frame is the same on
/// both sides, and the body's run lifts inductively.
proof fn loc_invoke(pre: Seq<FrameV>, st: StateV, e: ExprV, fuel: nat)
    requires
        st.frames.len() >= 1,
    ensures
        lifted_outcome(
            pre,
            st,
            eval_invoke_s(st, e, fuel),
            eval_invoke_s(lift_state(pre, st), e, fuel),
        ),
    decreases fuel, e, 2nat,
{
    match e {
        ExprV::Invoked { target, args } => {
            loc_expr(pre, st, *target, fuel);
            let (st1, r) = eval_expr_s(st, *target, fuel);
            match r {
                ResV::Cont(fv) => {
                    loc_exprs(pre, st1, args, fuel);
                    let (st2, ar) = crate::eval::eval_exprs_s(st1, args, fuel);
                    match ar {
                        crate::eval::ArgsV::Vals(vs) => match fv {
                            crate::object::ValueV::Function { params, body, capture } => {
                                if params.len() == vs.len() && fuel > 0 {
                                    let cf = call_frame(params, vs, capture);
                                    assert((pre + st2.frames).push(cf) =~= pre + st2.frames.push(
                                        cf,
                                    ));
                                    let st3 = StateV {
                                        frames: st2.frames.push(cf),
                                        out: st2.out,
                                    };
                                    loc_expr(pre, st3, body, (fuel - 1) as nat);
                                    let (st4, _) = eval_expr_s(st3, body, (fuel - 1) as nat);
                                    assert(st4.frames.len() > 0);
                                    assert((pre + st4.frames).drop_last() =~= pre
                                        + st4.frames.drop_last());
                                }
                            },
                            _ => {},
                        },
                        _ => {},
                    }
                },
                _ => {},
            }
        },
        _ => {},
    }
}

/// Closure capture, isolation side: a called function's body runs as if
/// the caller's frames did not exist. Its result and printed output are
/// those of running the body over the call frame alone, built from the
/// function value and the argument values; so a closure sees its captured
/// values wherever it is invoked, even after the declaring scope is gone.
pub proof fn law_callee_blind_to_caller(
    frames: Seq<FrameV>,
    cf: FrameV,
    out: Seq<Seq<char>>,
    body: ExprV,
    fuel: nat,
)
    ensures
        ({
            let (with_caller, r) = eval_expr_s(
                (StateV { frames: frames.push(cf), out }),
                body,
                fuel,
            );
            let (alone, r_alone) = eval_expr_s((StateV { frames: seq![cf], out }), body, fuel);
            &&& r == r_alone
            &&& with_caller.out == alone.out
            &&& with_caller.frames == frames + alone.frames
        }),
{
    loc_expr(frames, StateV { frames: seq![cf], out }, body, fuel);
    assert(frames + seq![cf] =~= frames.push(cf));
}


/// Parser determinism: parsing is a pure function of the input character
/// stream. Two parsers over equal states produce equal statement lists and
/// equal error lists; with `Parser::parse_program`'s contract, which pins
/// its result to `parse_program_s` of the parser's state, the same input
/// text always yields the same program.
pub proof fn law_parser_deterministic(st1: PState, st2: PState)
    requires
        st1 == st2,
    ensures
        parse_program_s(st1) == parse_program_s(st2),
{
}

/// Precedence, tighter second operator: with the next tokens being
/// `a op1 b op2 c ;` and `op2` binding more strongly than `op1`, the
/// expression parses as `a op1 (b op2 c)` — grouping follows the
/// precedence table.
pub proof fn law_precedence_groups_right(
    st: PState,
    a: Seq<char>,
    b: Seq<char>,
    c: Seq<char>,
    op1: Operator,
    op2: Operator,
    fuel: nat,
)
    requires
        fuel >= 8,
        st.cur == TokenV::Ident(a),
        st.peek == TokenV::Operator(op1),
        p_adv(st).peek == TokenV::Ident(b),
        p_adv(p_adv(st)).peek == TokenV::Operator(op2),
        p_adv(p_adv(p_adv(st))).peek == TokenV::Ident(c),
        p_adv(p_adv(p_adv(p_adv(st)))).peek == TokenV::Semicolon,
        led_op(TokenV::Operator(op1)),
        led_op(TokenV::Operator(op2)),
        op1 != Operator::Assign,
        op2 != Operator::Assign,
        0 < prec_val(prec_of(TokenV::Operator(op1))),
        prec_val(prec_of(TokenV::Operator(op1))) < prec_val(prec_of(TokenV::Operator(op2))),
    ensures
        parse_expression_s(st, 0, fuel).1 == Ok::<ExprV, PError>(
            ExprV::Infix {
                op: TokenV::Operator(op1),
                lhs: Box::new(ExprV::Ident(a)),
                rhs: Box::new(
                    ExprV::Infix {
                        op: TokenV::Operator(op2),
                        lhs: Box::new(ExprV::Ident(b)),
                        rhs: Box::new(ExprV::Ident(c)),
                    },
                ),
            },
        ),
{
    let op1t = TokenV::Operator(op1);
    let op2t = TokenV::Operator(op2);
    let p1 = prec_val(prec_of(op1t));
    let p2 = prec_val(prec_of(op2t));
    let st1 = p_adv(st);
    let st2 = p_adv(st1);
    let st3 = p_adv(st2);
    let st4 = p_adv(st3);
    let f1 = (fuel - 1) as nat;
    let f2 = (f1 - 1) as nat;
    let f3 = (f2 - 1) as nat;
    let f4 = (f3 - 1) as nat;
    let bc = ExprV::Infix {
        op: op2t,
        lhs: Box::new(ExprV::Ident(b)),
        rhs: Box::new(ExprV::Ident(c)),
    };
    let whole = ExprV::Infix { op: op1t, lhs: Box::new(ExprV::Ident(a)), rhs: Box::new(bc) };
    assert(parse_led_s(st4, ExprV::Ident(c), p2, f4) == (st4, Ok::<ExprV, PError>(
        ExprV::Ident(c),
    )));
    assert(parse_expression_s(st4, p2, f4) == (st4, Ok::<ExprV, PError>(ExprV::Ident(c))));
    assert(parse_infix_operator_s(st3, ExprV::Ident(b), f3) == (st4, Ok::<ExprV, PError>(bc)));
    assert(parse_led_s(st4, bc, p1, f3) == (st4, Ok::<ExprV, PError>(bc)));
    assert(parse_led_s(st2, ExprV::Ident(b), p1, f2) == (st4, Ok::<ExprV, PError>(bc)));
    assert(parse_expression_s(st2, p1, f2) == (st4, Ok::<ExprV, PError>(bc)));
    assert(parse_infix_operator_s(st1, ExprV::Ident(a), f1) == (st4, Ok::<ExprV, PError>(whole)));
    assert(parse_led_s(st4, whole, 0, f1) == (st4, Ok::<ExprV, PError>(whole)));
    assert(parse_led_s(st, ExprV::Ident(a), 0, fuel) == (st4, Ok::<ExprV, PError>(whole)));
    assert(parse_expression_s(st, 0, fuel) == (st4, Ok::<ExprV, PError>(whole)));
}

/// Precedence, equal or looser second operator: with the next tokens being
/// `a op1 b op2 c ;` and `op2` binding no more strongly than `op1` (neither
/// being `=`), the expression parses as `(a op1 b) op2 c` — equal
/// precedence associates leftwards.
pub proof fn law_precedence_groups_left(
    st: PState,
    a: Seq<char>,
    b: Seq<char>,
    c: Seq<char>,
    op1: Operator,
    op2: Operator,
    fuel: nat,
)
    requires
        fuel >= 8,
        st.cur == TokenV::Ident(a),
        st.peek == TokenV::Operator(op1),
        p_adv(st).peek == TokenV::Ident(b),
        p_adv(p_adv(st)).peek == TokenV::Operator(op2),
        p_adv(p_adv(p_adv(st))).peek == TokenV::Ident(c),
        p_adv(p_adv(p_adv(p_adv(st)))).peek == TokenV::Semicolon,
        led_op(TokenV::Operator(op1)),
        led_op(TokenV::Operator(op2)),
        op1 != Operator::Assign,
        op2 != Operator::Assign,
        0 < prec_val(prec_of(TokenV::Operator(op2))),
        prec_val(prec_of(TokenV::Operator(op2))) <= prec_val(prec_of(TokenV::Operator(op1))),
    ensures
        parse_expression_s(st, 0, fuel).1 == Ok::<ExprV, PError>(
            ExprV::Infix {
                op: TokenV::Operator(op2),
                lhs: Box::new(
                    ExprV::Infix {
                        op: TokenV::Operator(op1),
                        lhs: Box::new(ExprV::Ident(a)),
                        rhs: Box::new(ExprV::Ident(b)),
                    },
                ),
                rhs: Box::new(ExprV::Ident(c)),
            },
        ),
{
    let op1t = TokenV::Operator(op1);
    let op2t = TokenV::Operator(op2);
    let p1 = prec_val(prec_of(op1t));
    let p2 = prec_val(prec_of(op2t));
    let st1 = p_adv(st);
    let st2 = p_adv(st1);
    let st3 = p_adv(st2);
    let st4 = p_adv(st3);
    let f1 = (fuel - 1) as nat;
    let f2 = (f1 - 1) as nat;
    let f3 = (f1 - 1) as nat;
    let ab = ExprV::Infix {
        op: op1t,
        lhs: Box::new(ExprV::Ident(a)),
        rhs: Box::new(ExprV::Ident(b)),
    };
    let whole = ExprV::Infix { op: op2t, lhs: Box::new(ab), rhs: Box::new(ExprV::Ident(c)) };
    assert(parse_led_s(st2, ExprV::Ident(b), p1, f2) == (st2, Ok::<ExprV, PError>(
        ExprV::Ident(b),
    )));
    assert(parse_expression_s(st2, p1, f2) == (st2, Ok::<ExprV, PError>(ExprV::Ident(b))));
    assert(parse_infix_operator_s(st1, ExprV::Ident(a), f1) == (st2, Ok::<ExprV, PError>(ab)));
    let g2 = (f1 - 1) as nat;
    let g3 = (g2 - 1) as nat;
    assert(parse_led_s(st4, ExprV::Ident(c), p2, g3) == (st4, Ok::<ExprV, PError>(
        ExprV::Ident(c),
    )));
    assert(parse_expression_s(st4, p2, g3) == (st4, Ok::<ExprV, PError>(ExprV::Ident(c))));
    assert(parse_infix_operator_s(st3, ab, g2) == (st4, Ok::<ExprV, PError>(whole)));
    assert(parse_led_s(st4, whole, 0, g2) == (st4, Ok::<ExprV, PError>(whole)));
    assert(parse_led_s(st2, ab, 0, f1) == (st4, Ok::<ExprV, PError>(whole)));
    assert(parse_led_s(st, ExprV::Ident(a), 0, fuel) == (st4, Ok::<ExprV, PError>(whole)));
    assert(parse_expression_s(st, 0, fuel) == (st4, Ok::<ExprV, PError>(whole)));
}

/// Assignment associates rightwards: with the next tokens being
/// `a = b = c ;`, the expression parses as `a = (b = c)`.
pub proof fn law_assign_groups_right(
    st: PState,
    a: Seq<char>,
    b: Seq<char>,
    c: Seq<char>,
    fuel: nat,
)
    requires
        fuel >= 8,
        st.cur == TokenV::Ident(a),
        st.peek == TokenV::Operator(Operator::Assign),
        p_adv(st).peek == TokenV::Ident(b),
        p_adv(p_adv(st)).peek == TokenV::Operator(Operator::Assign),
        p_adv(p_adv(p_adv(st))).peek == TokenV::Ident(c),
        p_adv(p_adv(p_adv(p_adv(st)))).peek == TokenV::Semicolon,
    ensures
        parse_expression_s(st, 0, fuel).1 == Ok::<ExprV, PError>(
            ExprV::Infix {
                op: TokenV::Operator(Operator::Assign),
                lhs: Box::new(ExprV::Ident(a)),
                rhs: Box::new(
                    ExprV::Infix {
                        op: TokenV::Operator(Operator::Assign),
                        lhs: Box::new(ExprV::Ident(b)),
                        rhs: Box::new(ExprV::Ident(c)),
                    },
                ),
            },
        ),
{
    let eqt = TokenV::Operator(Operator::Assign);
    let st1 = p_adv(st);
    let st2 = p_adv(st1);
    let st3 = p_adv(st2);
    let st4 = p_adv(st3);
    let f1 = (fuel - 1) as nat;
    let f2 = (f1 - 1) as nat;
    let f3 = (f2 - 1) as nat;
    let f4 = (f3 - 1) as nat;
    let bc = ExprV::Infix { op: eqt, lhs: Box::new(ExprV::Ident(b)), rhs: Box::new(
        ExprV::Ident(c),
    ) };
    let whole = ExprV::Infix { op: eqt, lhs: Box::new(ExprV::Ident(a)), rhs: Box::new(bc) };
    assert(parse_led_s(st4, ExprV::Ident(c), 0, f4) == (st4, Ok::<ExprV, PError>(
        ExprV::Ident(c),
    )));
    assert(parse_expression_s(st4, 0, f4) == (st4, Ok::<ExprV, PError>(ExprV::Ident(c))));
    assert(parse_infix_operator_s(st3, ExprV::Ident(b), f3) == (st4, Ok::<ExprV, PError>(bc)));
    assert(parse_led_s(st4, bc, 0, f3) == (st4, Ok::<ExprV, PError>(bc)));
    assert(parse_led_s(st2, ExprV::Ident(b), 0, f2) == (st4, Ok::<ExprV, PError>(bc)));
    assert(parse_expression_s(st2, 0, f2) == (st4, Ok::<ExprV, PError>(bc)));
    assert(parse_infix_operator_s(st1, ExprV::Ident(a), f1) == (st4, Ok::<ExprV, PError>(whole)));
    assert(parse_led_s(st4, whole, 0, f1) == (st4, Ok::<ExprV, PError>(whole)));
    assert(parse_led_s(st, ExprV::Ident(a), 0, fuel) == (st4, Ok::<ExprV, PError>(whole)));
    assert(parse_expression_s(st, 0, fuel) == (st4, Ok::<ExprV, PError>(whole)));
}


/// `assign_binds` never touches the bindings below the scope mark, and
/// never shortens the list past it.
proof fn lemma_assign_binds_prefix(
    bs: Seq<(Seq<char>, ValueV)>,
    n: Seq<char>,
    v: ValueV,
    m: int,
)
    requires
        0 <= m <= bs.len(),
    ensures
        crate::stack::assign_binds(bs, n, v, m).len() >= bs.len(),
        crate::stack::assign_binds(bs, n, v, m).take(m) == bs.take(m),
    decreases bs.len(),
{
    let r = crate::stack::assign_binds(bs, n, v, m);
    if bs.len() == 0 || bs.len() <= m {
        assert(r.take(m) =~= bs.take(m));
    } else if bs.last().0 == n {
        assert(r.take(m) =~= bs.take(m));
    } else {
        lemma_assign_binds_prefix(bs.drop_last(), n, v, m);
        assert(r.take(m) =~= crate::stack::assign_binds(bs.drop_last(), n, v, m).take(m));
        assert(bs.drop_last().take(m) =~= bs.take(m));
    }
}

/// The shape a frame has while a block runs: entering the scope recorded
/// the old binding count as a mark, and everything below that mark is
/// untouched. `fr_add` and `fr_assign` both preserve this shape, so it
/// holds after any number of bindings and rebindings in the block.
pub open spec fn in_scope_of(f: FrameV, g: FrameV) -> bool {
    &&& g.marks == fr_push(f).marks
    &&& g.binds.len() >= f.binds.len()
    &&& g.binds.take(f.binds.len() as int) == f.binds
}

/// Scoping, the whole law: however many names a block binds or rebinds
/// (`in_scope_of` is preserved by both operations), leaving the block
/// restores the frame exactly as it was — every name introduced inside is
/// gone, and every shadowed outer binding is visible again.
pub proof fn law_block_scope_restores(f: FrameV, g: FrameV, n: Seq<char>, v: ValueV)
    requires
        f.binds.len() <= usize::MAX,
        in_scope_of(f, g),
    ensures
        in_scope_of(f, fr_add(g, n, v)),
        in_scope_of(f, fr_assign(g, n, v)),
        fr_pop(g) == f,
        frames_get(on_active(seq![f], fr_pop(g)), n) == frames_get(seq![f], n),
{
    assert(fr_add(g, n, v).binds.take(f.binds.len() as int) =~= f.binds);
    assert(crate::stack::cur_mark(g) == f.binds.len() as int);
    lemma_assign_binds_prefix(g.binds, n, v, f.binds.len() as int);
    assert(fr_assign(g, n, v).binds.take(f.binds.len() as int) =~= g.binds.take(
        f.binds.len() as int,
    ));
    assert(g.marks.last() == f.binds.len() as usize);
    assert(g.binds.take(f.binds.len() as int) =~= f.binds);
    assert(g.marks.drop_last() =~= f.marks);
    assert(fr_pop(g) == f);
    assert(on_active(seq![f], f) =~= seq![f]);
}

/// Closure capture, the whole law: a function literal evaluated in a
/// declaring state snapshots the values its capture names have there, and
/// the produced value carries that snapshot. Invoked anywhere, its body
/// runs over a frame built only from the built-ins, the parameters and the
/// snapshot: the captured name resolves to its value from the declaring
/// state (the last snapshot entry for a repeated name), and the caller's
/// frames — including the declaring scope's later disappearance — cannot
/// influence the body's result or output.
pub proof fn law_closure_capture(
    st_decl: StateV,
    params: Seq<Seq<char>>,
    body: ExprV,
    capture: Seq<Seq<char>>,
    lit_fuel: nat,
    caller_frames: Seq<FrameV>,
    args: Seq<ValueV>,
    out: Seq<Seq<char>>,
    body_fuel: nat,
    i: int,
)
    requires
        forall|j: int| 0 <= j < capture.len() ==> #[trigger] frames_get(
            st_decl.frames,
            capture[j],
        ) is Some,
        0 <= i < capture.len(),
        forall|j: int| i < j < capture.len() ==> #[trigger] capture[j] != capture[i],
    ensures
        ({
            let snap = snap_captures(st_decl.frames, capture)->0;
            let cf = call_frame(params, args, snap);
            &&& eval_expr_s(
                st_decl,
                ExprV::FnLit { params, body: Box::new(body), capture },
                lit_fuel,
            ) == (st_decl, ResV::Cont(ValueV::Function { params, body, capture: snap }))
            &&& lookup_binds(cf.binds, capture[i]) == frames_get(st_decl.frames, capture[i])
            &&& ({
                let (with_caller, r) = eval_expr_s(
                    (StateV { frames: caller_frames.push(cf), out }),
                    body,
                    body_fuel,
                );
                let (alone, r_alone) = eval_expr_s(
                    (StateV { frames: seq![cf], out }),
                    body,
                    body_fuel,
                );
                r == r_alone && with_caller.out == alone.out
            })
        }),
{
    lemma_snap_captures(st_decl.frames, capture);
    let snap = snap_captures(st_decl.frames, capture)->0;
    assert forall|j: int| 0 <= j < snap.len() implies (#[trigger] snap[j]).0 != snap[i].0 || j
        <= i by {
        assert(snap[j] == (capture[j], frames_get(st_decl.frames, capture[j])->0));
        assert(snap[i] == (capture[i], frames_get(st_decl.frames, capture[i])->0));
    }
    law_call_sees_capture(params, args, snap, i);
    assert(snap[i] == (capture[i], frames_get(st_decl.frames, capture[i])->0));
    law_callee_blind_to_caller(caller_frames, call_frame(params, args, snap), out, body, body_fuel);
}

/// Return unwinding, the whole law: a `Break` born among a block's or the
/// program's statements leaves them as the same `Break`, unchanged (the
/// block's scope still popped on the way out), and stops exactly at the
/// function-call boundary: an invocation whose callee and arguments
/// evaluated normally never yields a `Break` of its own.
pub proof fn law_return_unwinds_to_the_call(
    st: StateV,
    ss: Seq<crate::ast::StmtV>,
    e: ExprV,
    fuel: nat,
    v: ValueV,
)
    ensures
        ({
            let st1 = crate::eval::with_frames(
                st,
                on_active(st.frames, fr_push(st.frames.last())),
            );
            eval_stmts_s(st1, ss, fuel).1 == ResV::Brk(v) ==> eval_expr_s(
                st,
                ExprV::Block(ss),
                fuel,
            ).1 == ResV::Brk(v)
        }),
        eval_stmts_s(st, ss, fuel).1 == ResV::Brk(v) ==> eval_expr_s(
            st,
            ExprV::Program(ss),
            fuel,
        ).1 == ResV::Brk(v),
        ({
            let (st1, r) = eval_expr_s(st, *e->Invoked_target, fuel);
            let (st2, ar) = crate::eval::eval_exprs_s(st1, e->Invoked_args, fuel);
            ((e matches ExprV::Invoked { .. }) && (r matches ResV::Cont(fv)) && (
            ar matches crate::eval::ArgsV::Vals(vs))) ==> !(eval_invoke_s(st, e, fuel).1 is Brk)
        }),
{
    if e is Invoked {
        let (st1, r) = eval_expr_s(st, *e->Invoked_target, fuel);
        let (st2, ar) = crate::eval::eval_exprs_s(st1, e->Invoked_args, fuel);
        if r is Cont && ar is Vals {
            law_return_stops_at_call(st, e, fuel);
        }
    }
}

} // verus!
