//! The tree-walking evaluator. Every evaluation step returns a
//! [`Flow`]-wrapped value: `Continue` for ordinary results and `Break` for
//! `return`-initiated unwinding, which stops at the nearest function-call
//! boundary. The exec evaluator is proved equal to the big-step
//! specification interpreter `eval_expr_s`, which carries a recursion budget
//! (function calls consume it; purely structural work does not).

use vstd::prelude::*;

use crate::ast::{
    expr_view, exprs_view, idents_view, lemma_exprs_view, lemma_idents_view, lemma_pairs_view,
    lemma_stmts_view, node_view, pairs_view, stmt_view, stmts_view, ExprV, Expression, Ident,
    Literal, Node, NodeV, Statement, StmtV,
};
use crate::object::{
    apply_binop, apply_index, apply_prefix, binop_s, builtin_call_s, coll_set, collection_get,
    collection_set, idx_s, lemma_values_view, prefix_s, strings_view, truthy_s, value_view,
    values_view, vpairs_view, Function, Value, ValueV,
};
use crate::stack::{
    fr_add, fr_assign, fr_pop, fr_push, frames_get, initial_frame, on_active, FrameV, Stack,
};
use crate::token::{token_view, Operator, Token, TokenV};
use vstd::string::StringExecFns;

verus! {

/// A run-time evaluation error, or a request (from the `exit`/`yeet`
/// built-ins) to stop the host program. The evaluator itself never stops a
/// process; the caller decides what `Exit` means.
#[derive(Debug)]
pub enum Error {
    Eval(String),
    Exit,
}

/// Carrier distinguishing ordinary results (`Continue`) from `return`-driven
/// unwinding (`Break`).
#[derive(Debug)]
pub enum Flow<T> {
    Continue(T),
    Break(T),
}

impl<T> Flow<T> {
    /// The carried value, whichever way the flow goes.
    pub open spec fn value_s(self) -> T {
        match self {
            Flow::Continue(t) => t,
            Flow::Break(t) => t,
        }
    }

    /// Whether this is ordinary (non-unwinding) flow.
    pub open spec fn is_continue_s(self) -> bool {
        self is Continue
    }

    /// Takes the carried value out, dropping the break/continue distinction.
    pub fn unwrap(self) -> (t: T)
        ensures
            t == self.value_s(),
    {
        match self {
            Flow::Continue(t) => t,
            Flow::Break(t) => t,
        }
    }

    /// True exactly on `Break`.
    pub fn is_break(&self) -> (r: bool)
        ensures
            r == !self.is_continue_s(),
    {
        matches!(self, Flow::Break(_))
    }

    /// True exactly on `Continue`.
    pub fn is_continue(&self) -> (r: bool)
        ensures
            r == self.is_continue_s(),
    {
        matches!(self, Flow::Continue(_))
    }

    /// Borrows the carried value, keeping the flow direction.
    pub fn as_ref(&self) -> (r: Flow<&T>)
        ensures
            r.is_continue_s() == self.is_continue_s(),
            *r.value_s() == self.value_s(),
    {
        match self {
            Flow::Continue(t) => Flow::Continue(t),
            Flow::Break(t) => Flow::Break(t),
        }
    }

    /// Applies `f` to the carried value, keeping the flow direction.
    pub fn map<U, F: Fn(T) -> U>(self, f: F) -> (r: Flow<U>)
        requires
            f.requires((self.value_s(),)),
        ensures
            r.is_continue_s() == self.is_continue_s(),
            f.ensures((self.value_s(),), r.value_s()),
    {
        match self {
            Flow::Continue(t) => Flow::Continue(f(t)),
            Flow::Break(t) => Flow::Break(f(t)),
        }
    }
}

/// The ghost outcome of one evaluation step: an ordinary value, an unwinding
/// value, a run-time error, or a request to stop the host program.
pub enum ResV {
    Cont(ValueV),
    Brk(ValueV),
    Fail,
    Exit,
}

/// The ghost value of an exec evaluation outcome.
pub open spec fn res_view(r: Result<Flow<Value>, Error>) -> ResV {
    match r {
        Ok(Flow::Continue(v)) => ResV::Cont(value_view(v)),
        Ok(Flow::Break(v)) => ResV::Brk(value_view(v)),
        Err(Error::Eval(_)) => ResV::Fail,
        Err(Error::Exit) => ResV::Exit,
    }
}

/// Ghost evaluator state: the environment frames and the output lines
/// produced so far by the `print` built-in.
pub struct StateV {
    pub frames: Seq<FrameV>,
    pub out: Seq<Seq<char>>,
}

/// `st` with its frames replaced.
pub open spec fn with_frames(st: StateV, fs: Seq<FrameV>) -> StateV {
    StateV { frames: fs, out: st.out }
}

/// The ghost outcome of an argument list: all values, or an interruption
/// (unwinding, an error, or an exit request) that short-circuited it.
pub enum ArgsV {
    Vals(Seq<ValueV>),
    Stop(ResV),
}

/// The ghost outcome of a collection literal's member list.
pub enum PairsV {
    Pairs(Seq<(Seq<char>, ValueV)>),
    Stop(ResV),
}

/// Snapshots the current values of the capture names, newest bindings
/// first as seen from the active frame; `None` when a name is unbound.
pub open spec fn snap_captures(fs: Seq<FrameV>, names: Seq<Seq<char>>) -> Option<
    Seq<(Seq<char>, ValueV)>,
>
    decreases names.len(),
{
    if names.len() == 0 {
        Some(Seq::empty())
    } else {
        match frames_get(fs, names[0]) {
            None => None,
            Some(v) => match snap_captures(fs, names.drop_first()) {
                None => None,
                Some(rest) => Some(seq![(names[0], v)] + rest),
            },
        }
    }
}

/// Binds each name to the value at the same position, in order.
pub open spec fn bind_args_s(f: FrameV, names: Seq<Seq<char>>, vals: Seq<ValueV>) -> FrameV
    decreases names.len(),
{
    if names.len() == 0 || vals.len() == 0 {
        f
    } else {
        bind_args_s(fr_add(f, names[0], vals[0]), names.drop_first(), vals.drop_first())
    }
}

/// Binds each pair, in order.
pub open spec fn bind_pairs_s(f: FrameV, ps: Seq<(Seq<char>, ValueV)>) -> FrameV
    decreases ps.len(),
{
    if ps.len() == 0 {
        f
    } else {
        bind_pairs_s(fr_add(f, ps[0].0, ps[0].1), ps.drop_first())
    }
}

/// The frame a function body runs in: the built-ins, then the parameters
/// bound to the arguments, then the captured bindings. The caller's frames
/// are not visible from it.
pub open spec fn call_frame(
    params: Seq<Seq<char>>,
    args: Seq<ValueV>,
    capture: Seq<(Seq<char>, ValueV)>,
) -> FrameV {
    bind_pairs_s(bind_args_s(initial_frame(), params, args), capture)
}

/// Big-step evaluation of a node.
pub open spec fn eval_node_s(st: StateV, n: NodeV, fuel: nat) -> (StateV, ResV)
    decreases fuel, n, 3nat,
{
    match n {
        NodeV::Stmt(s) => eval_stmt_s(st, s, fuel),
        NodeV::Expr(e) => eval_expr_s(st, e, fuel),
    }
}

/// Big-step evaluation of a statement. A `let` binds in the current scope
/// and yields the bound value; `return` wraps its value as `Break`; a lone
/// `;` yields unit.
pub open spec fn eval_stmt_s(st: StateV, s: StmtV, fuel: nat) -> (StateV, ResV)
    decreases fuel, s, 3nat,
{
    match s {
        StmtV::Let { name, value } => {
            let (st1, r) = eval_expr_s(st, value, fuel);
            match r {
                ResV::Cont(v) => (
                    with_frames(st1, on_active(st1.frames, fr_assign(st1.frames.last(), name, v))),
                    ResV::Cont(v),
                ),
                _ => (st1, r),
            }
        },
        StmtV::Return(e) => {
            let (st1, r) = eval_expr_s(st, e, fuel);
            match r {
                ResV::Cont(v) => (st1, ResV::Brk(v)),
                _ => (st1, r),
            }
        },
        StmtV::Expr(e) => eval_expr_s(st, e, fuel),
        StmtV::Empty => (st, ResV::Cont(ValueV::Unit)),
    }
}

/// Big-step evaluation of a statement list: the last statement's value
/// (unit when empty); `Break`, errors and exit requests short-circuit.
pub open spec fn eval_stmts_s(st: StateV, ss: Seq<StmtV>, fuel: nat) -> (StateV, ResV)
    decreases fuel, ss, 3nat,
{
    if ss.len() == 0 {
        (st, ResV::Cont(ValueV::Unit))
    } else {
        let (st1, r) = eval_stmt_s(st, ss[0], fuel);
        match r {
            ResV::Cont(v) => if ss.len() == 1 {
                (st1, ResV::Cont(v))
            } else {
                eval_stmts_s(st1, ss.drop_first(), fuel)
            },
            _ => (st1, r),
        }
    }
}

/// Big-step evaluation of an expression list, left to right.
pub open spec fn eval_exprs_s(st: StateV, es: Seq<ExprV>, fuel: nat) -> (StateV, ArgsV)
    decreases fuel, es, 3nat,
{
    if es.len() == 0 {
        (st, ArgsV::Vals(Seq::empty()))
    } else {
        let (st1, r) = eval_expr_s(st, es[0], fuel);
        match r {
            ResV::Cont(v) => {
                let (st2, ar) = eval_exprs_s(st1, es.drop_first(), fuel);
                match ar {
                    ArgsV::Vals(vs) => (st2, ArgsV::Vals(seq![v] + vs)),
                    ArgsV::Stop(x) => (st2, ArgsV::Stop(x)),
                }
            },
            _ => (st1, ArgsV::Stop(r)),
        }
    }
}

/// Big-step evaluation of a collection literal's members, left to right;
/// on a repeated key the later value wins.
pub open spec fn eval_pairs_s(
    st: StateV,
    ps: Seq<(Seq<char>, ExprV)>,
    acc: Seq<(Seq<char>, ValueV)>,
    fuel: nat,
) -> (StateV, PairsV)
    decreases fuel, ps, 3nat,
{
    if ps.len() == 0 {
        (st, PairsV::Pairs(acc))
    } else {
        let (st1, r) = eval_expr_s(st, ps[0].1, fuel);
        match r {
            ResV::Cont(v) => eval_pairs_s(st1, ps.drop_first(), coll_set(acc, ps[0].0, v), fuel),
            _ => (st1, PairsV::Stop(r)),
        }
    }
}

/// Big-step evaluation of an expression.
pub open spec fn eval_expr_s(st: StateV, e: ExprV, fuel: nat) -> (StateV, ResV)
    decreases fuel, e, 3nat,
{
    match e {
        ExprV::Program(ss) => eval_stmts_s(st, ss, fuel),
        ExprV::Ident(n) => match frames_get(st.frames, n) {
            Some(v) => (st, ResV::Cont(v)),
            None => (st, ResV::Fail),
        },
        ExprV::Int(i) => (st, ResV::Cont(ValueV::Integer(i))),
        ExprV::Str(s) => (st, ResV::Cont(ValueV::Str(s))),
        ExprV::Bool(b) => (st, ResV::Cont(ValueV::Bool(b))),
        ExprV::FnLit { params, body, capture } => match snap_captures(st.frames, capture) {
            None => (st, ResV::Fail),
            Some(c) => (
                st,
                ResV::Cont(ValueV::Function { params, body: *body, capture: c }),
            ),
        },
        ExprV::CollLit(ps) => {
            let (st1, pr) = eval_pairs_s(st, ps, Seq::empty(), fuel);
            match pr {
                PairsV::Pairs(ms) => (st1, ResV::Cont(ValueV::Collection(ms))),
                PairsV::Stop(r) => (st1, r),
            }
        },
        ExprV::VecLit(es) => {
            let (st1, ar) = eval_exprs_s(st, es, fuel);
            match ar {
                ArgsV::Vals(vs) => (st1, ResV::Cont(ValueV::Vector(vs))),
                ArgsV::Stop(r) => (st1, r),
            }
        },
        ExprV::Infix { .. } => eval_infix_s(st, e, fuel),
        ExprV::Prefix { op, operand } => {
            let (st1, r) = eval_expr_s(st, *operand, fuel);
            match r {
                ResV::Cont(v) => match op {
                    TokenV::Operator(o) => match prefix_s(o, v) {
                        Some(v2) => (st1, ResV::Cont(v2)),
                        None => (st1, ResV::Fail),
                    },
                    _ => (st1, ResV::Fail),
                },
                _ => (st1, r),
            }
        },
        ExprV::Block(ss) => {
            let st1 = with_frames(st, on_active(st.frames, fr_push(st.frames.last())));
            let (st2, r) = eval_stmts_s(st1, ss, fuel);
            (with_frames(st2, on_active(st2.frames, fr_pop(st2.frames.last()))), r)
        },
        ExprV::If { .. } => eval_if_s(st, e, fuel),
        ExprV::Invoked { .. } => eval_invoke_s(st, e, fuel),
        ExprV::Indexed { .. } => eval_index_s(st, e, fuel),
    }
}

/// Big-step evaluation of an indexing expression: the index is evaluated
/// first, then the indexee, and the `idx` slot is dispatched on the
/// indexee with the index value.
pub open spec fn eval_index_s(st: StateV, e: ExprV, fuel: nat) -> (StateV, ResV)
    decreases fuel, e, 2nat,
{
    match e {
        ExprV::Indexed { indexee, index } => {
            let (st1, r1) = eval_expr_s(st, *index, fuel);
            match r1 {
                ResV::Cont(iv) => {
                    let (st2, r2) = eval_expr_s(st1, *indexee, fuel);
                    match r2 {
                        ResV::Cont(tv) => match idx_s(tv, iv) {
                            Some(v) => (st2, ResV::Cont(v)),
                            None => (st2, ResV::Fail),
                        },
                        _ => (st2, r2),
                    }
                },
                _ => (st1, r1),
            }
        },
        _ => (st, ResV::Fail),
    }
}

/// Big-step evaluation of an infix expression: assignment forms delegate
/// to the assignment rules, `.` to member access, and everything else
/// evaluates both sides and dispatches through the operator table.
pub open spec fn eval_infix_s(st: StateV, e: ExprV, fuel: nat) -> (StateV, ResV)
    decreases fuel, e, 2nat,
{
    match e {
        ExprV::Infix { op, lhs, rhs } => {
            if op == TokenV::Operator(Operator::Assign) || op == TokenV::Operator(
                Operator::PlusEqual,
            ) || op == TokenV::Operator(Operator::MinusEqual) {
                eval_assign_s(st, e, fuel)
            } else if op == TokenV::Operator(Operator::Dot) {
                eval_access_s(st, e, fuel)
            } else {
                let (st1, r1) = eval_expr_s(st, *lhs, fuel);
                match r1 {
                    ResV::Cont(lv) => {
                        let (st2, r2) = eval_expr_s(st1, *rhs, fuel);
                        match r2 {
                            ResV::Cont(rv) => match op {
                                TokenV::Operator(o) => match binop_s(o, lv, rv) {
                                    Some(v) => (st2, ResV::Cont(v)),
                                    None => (st2, ResV::Fail),
                                },
                                _ => (st2, ResV::Fail),
                            },
                            _ => (st2, r2),
                        }
                    },
                    _ => (st1, r1),
                }
            }
        },
        _ => (st, ResV::Fail),
    }
}

/// Big-step evaluation of `=`, `+=` and `-=`. A plain `=` to a name
/// rebinds it in the current scope; `+=`/`-=` combine the old value with
/// the right side through the `+`/`-` slots; `coll.member = v` produces a
/// copy of the collection with the member set and writes it back to the
/// named collection.
pub open spec fn eval_assign_s(st: StateV, e: ExprV, fuel: nat) -> (StateV, ResV)
    decreases fuel, e, 1nat,
{
    match e {
        ExprV::Infix { op, lhs, rhs } => match *lhs {
            ExprV::Ident(name) => {
                let (st1, r) = eval_expr_s(st, *rhs, fuel);
                match r {
                    ResV::Cont(v) => {
                        if op == TokenV::Operator(Operator::Assign) {
                            (
                                with_frames(
                                    st1,
                                    on_active(
                                        st1.frames,
                                        fr_assign(st1.frames.last(), name, v),
                                    ),
                                ),
                                ResV::Cont(v),
                            )
                        } else if op == TokenV::Operator(Operator::PlusEqual) || op
                            == TokenV::Operator(Operator::MinusEqual) {
                            let o = if op == TokenV::Operator(Operator::PlusEqual) {
                                Operator::Plus
                            } else {
                                Operator::Minus
                            };
                            match frames_get(st1.frames, name) {
                                None => (st1, ResV::Fail),
                                Some(cur) => match binop_s(o, cur, v) {
                                    None => (st1, ResV::Fail),
                                    Some(v2) => (
                                        with_frames(
                                            st1,
                                            on_active(
                                                st1.frames,
                                                fr_assign(st1.frames.last(), name, v2),
                                            ),
                                        ),
                                        ResV::Cont(v2),
                                    ),
                                },
                            }
                        } else {
                            (st1, ResV::Fail)
                        }
                    },
                    _ => (st1, r),
                }
            },
            ExprV::Infix { op: inner_op, lhs: coll_e, rhs: accessor } => {
                if op == TokenV::Operator(Operator::Assign) && inner_op == TokenV::Operator(
                    Operator::Dot,
                ) {
                    eval_access_assign_s(st, e, fuel)
                } else {
                    let (st1, r) = eval_expr_s(
                        st,
                        ExprV::Infix { op: inner_op, lhs: coll_e, rhs: accessor },
                        fuel,
                    );
                    match r {
                        ResV::Cont(_) => (st1, ResV::Fail),
                        _ => (st1, r),
                    }
                }
            },
            _ => {
                let (st1, r) = eval_expr_s(st, *lhs, fuel);
                match r {
                    ResV::Cont(_) => (st1, ResV::Fail),
                    _ => (st1, r),
                }
            },
        },
        _ => (st, ResV::Fail),
    }
}

/// Big-step evaluation of `coll.member = value`: the left of the dot is
/// evaluated and must yield a collection, the member name is not
/// evaluated, and the right side's value is set in a fresh copy of the
/// collection (copy-on-write); the name is then rebound to the copy, which
/// is how the update becomes observable. The target must be a plain name:
/// under value semantics the updated copy of an anonymous collection (a
/// literal, a call result, a nested access) would have no holder, so such
/// an assignment is an error rather than a silent no-op.
pub open spec fn eval_access_assign_s(st: StateV, e: ExprV, fuel: nat) -> (StateV, ResV)
    decreases fuel, e, 0nat,
{
    match e {
        ExprV::Infix { op, lhs, rhs } => match *lhs {
            ExprV::Infix { op: inner_op, lhs: coll_e, rhs: accessor } => {
                let (st1, r1) = eval_expr_s(st, *coll_e, fuel);
                match r1 {
                    ResV::Cont(ValueV::Collection(ms)) => match *accessor {
                        ExprV::Ident(member) => {
                            let (st2, r2) = eval_expr_s(st1, *rhs, fuel);
                            match r2 {
                                ResV::Cont(v) => {
                                    let updated = ValueV::Collection(coll_set(ms, member, v));
                                    match *coll_e {
                                        ExprV::Ident(cname) => (
                                            with_frames(
                                                st2,
                                                on_active(
                                                    st2.frames,
                                                    crate::stack::fr_update(
                                                        st2.frames.last(),
                                                        cname,
                                                        updated,
                                                    ),
                                                ),
                                            ),
                                            ResV::Cont(v),
                                        ),
                                        _ => (st2, ResV::Fail),
                                    }
                                },
                                _ => (st2, r2),
                            }
                        },
                        _ => (st1, ResV::Fail),
                    },
                    ResV::Cont(_) => (st1, ResV::Fail),
                    _ => (st1, r1),
                }
            },
            _ => (st, ResV::Fail),
        },
        _ => (st, ResV::Fail),
    }
}

/// Big-step evaluation of member access `coll.member`: the left side is
/// evaluated and must yield a collection; the right side must be an
/// identifier, which is not evaluated; the member must be present.
pub open spec fn eval_access_s(st: StateV, e: ExprV, fuel: nat) -> (StateV, ResV)
    decreases fuel, e, 1nat,
{
    match e {
        ExprV::Infix { op, lhs, rhs } => {
            let (st1, r) = eval_expr_s(st, *lhs, fuel);
            match r {
                ResV::Cont(ValueV::Collection(ms)) => match *rhs {
                    ExprV::Ident(member) => match crate::object::coll_get(ms, member) {
                        Some(v) => (st1, ResV::Cont(v)),
                        None => (st1, ResV::Fail),
                    },
                    _ => {
                        let (st2, r2) = eval_expr_s(st1, *rhs, fuel);
                        match r2 {
                            ResV::Cont(_) => (st2, ResV::Fail),
                            _ => (st2, r2),
                        }
                    },
                },
                ResV::Cont(_) => (st1, ResV::Fail),
                _ => (st1, r),
            }
        },
        _ => (st, ResV::Fail),
    }
}

/// Big-step evaluation of `if`: the condition's truthiness picks the
/// branch; a missing alternative yields unit.
pub open spec fn eval_if_s(st: StateV, e: ExprV, fuel: nat) -> (StateV, ResV)
    decreases fuel, e, 2nat,
{
    match e {
        ExprV::If { cond, cons, alt } => {
            let (st1, r) = eval_expr_s(st, *cond, fuel);
            match r {
                ResV::Cont(cv) => if truthy_s(cv) {
                    eval_expr_s(st1, *cons, fuel)
                } else {
                    match alt {
                        Some(a) => eval_expr_s(st1, *a, fuel),
                        None => (st1, ResV::Cont(ValueV::Unit)),
                    }
                },
                _ => (st1, r),
            }
        },
        _ => (st, ResV::Fail),
    }
}

/// Big-step evaluation of an invocation: callee, then arguments, left to
/// right, each `Break` short-circuiting. A built-in runs directly. A
/// function must receive exactly as many arguments as it has parameters;
/// its body runs in a fresh frame holding only the built-ins, the
/// parameters and the captured bindings, with one unit of recursion budget
/// consumed, and a `Break` from the body is unwrapped at this boundary.
pub open spec fn eval_invoke_s(st: StateV, e: ExprV, fuel: nat) -> (StateV, ResV)
    decreases fuel, e, 2nat,
{
    match e {
        ExprV::Invoked { target, args } => {
            let (st1, r) = eval_expr_s(st, *target, fuel);
            match r {
                ResV::Cont(fv) => {
                    let (st2, ar) = eval_exprs_s(st1, args, fuel);
                    match ar {
                        ArgsV::Vals(vs) => match fv {
                            ValueV::Builtin(b) => {
                                let (out2, res) = builtin_call_s(b, vs, st2.out);
                                (StateV { frames: st2.frames, out: out2 }, res)
                            },
                            ValueV::Function { params, body, capture } => {
                                if params.len() != vs.len() {
                                    (st2, ResV::Fail)
                                } else if fuel == 0 {
                                    (st2, ResV::Fail)
                                } else {
                                    let st3 = StateV {
                                        frames: st2.frames.push(call_frame(params, vs, capture)),
                                        out: st2.out,
                                    };
                                    let (st4, r2) = eval_expr_s(st3, body, (fuel - 1) as nat);
                                    let st5 = StateV {
                                        frames: if st4.frames.len() > 0 {
                                            st4.frames.drop_last()
                                        } else {
                                            st4.frames
                                        },
                                        out: st4.out,
                                    };
                                    match r2 {
                                        ResV::Cont(v) => (st5, ResV::Cont(v)),
                                        ResV::Brk(v) => (st5, ResV::Cont(v)),
                                        _ => (st5, r2),
                                    }
                                }
                            },
                            _ => (st2, ResV::Fail),
                        },
                        ArgsV::Stop(x) => (st2, x),
                    }
                },
                _ => (st1, r),
            }
        },
        _ => (st, ResV::Fail),
    }
}


/// The recursion budget: how many nested function calls one evaluation may
/// make before it is reported as a run-time error. It stands in for the
/// host's call stack, which a tree-walking interpreter would otherwise
/// exhaust; programs nesting calls deeper than this fail cleanly instead.
pub const FUEL: u64 = 1024;

/// Exec outcome of evaluating an argument list: every value, or the value
/// of a `return` that interrupted it.
pub enum ArgsOut {
    Vals(Vec<Value>),
    Interrupted(Value),
}

/// The ghost value of an argument-list outcome.
pub open spec fn args_out_view(r: Result<ArgsOut, Error>) -> ArgsV {
    match r {
        Ok(ArgsOut::Vals(vs)) => ArgsV::Vals(values_view(vs@)),
        Ok(ArgsOut::Interrupted(v)) => ArgsV::Stop(ResV::Brk(value_view(v))),
        Err(Error::Eval(_)) => ArgsV::Stop(ResV::Fail),
        Err(Error::Exit) => ArgsV::Stop(ResV::Exit),
    }
}

/// Exec outcome of evaluating a collection literal's member list.
pub enum MembersOut {
    Members(Vec<(Ident, Value)>),
    Interrupted(Value),
}

/// The ghost value of a member-list outcome.
pub open spec fn members_out_view(r: Result<MembersOut, Error>) -> PairsV {
    match r {
        Ok(MembersOut::Members(ms)) => PairsV::Pairs(vpairs_view(ms@)),
        Ok(MembersOut::Interrupted(v)) => PairsV::Stop(ResV::Brk(value_view(v))),
        Err(Error::Eval(_)) => PairsV::Stop(ResV::Fail),
        Err(Error::Exit) => PairsV::Stop(ResV::Exit),
    }
}

/// The evaluator: an environment stack plus the lines printed so far.
#[derive(Debug)]
pub struct Eval {
    pub stack: Stack,
    pub output: Vec<String>,
}

impl View for Eval {
    type V = StateV;

    open spec fn view(&self) -> StateV {
        StateV { frames: self.stack@, out: strings_view(self.output@) }
    }
}

impl Eval {
    /// A fresh evaluator: one frame with the built-ins, no output.
    pub fn new() -> (r: Eval)
        ensures
            r@ == (StateV { frames: seq![initial_frame()], out: Seq::<Seq<char>>::empty() }),
    {
        let r = Eval { stack: Stack::new(), output: Vec::new() };
        proof {
            assert(strings_view(r.output@) =~= Seq::<Seq<char>>::empty());
        }
        r
    }

    /// Resets the environment; pending output is kept.
    pub fn clear(&mut self)
        ensures
            final(self)@ == (StateV { frames: seq![initial_frame()], out: old(self)@.out }),
    {
        self.stack = Stack::new();
    }

    /// Hands out the pending output lines, leaving the buffer empty.
    pub fn take_output(&mut self) -> (r: Vec<String>)
        ensures
            strings_view(r@) == old(self)@.out,
            final(self)@ == (StateV { frames: old(self)@.frames, out: Seq::<Seq<char>>::empty() }),
    {
        let mut r: Vec<String> = Vec::new();
        core::mem::swap(&mut r, &mut self.output);
        proof {
            assert(strings_view(self.output@) =~= Seq::<Seq<char>>::empty());
        }
        r
    }

    /// Evaluates one node under the full recursion budget.
    pub fn eval(&mut self, node: Node) -> (r: Result<Flow<Value>, Error>)
        ensures
            ({
                let (st2, res) = eval_node_s(old(self)@, node_view(node), FUEL as nat);
                final(self)@ == st2 && res_view(r) == res
            }),
    {
        match node {
            Node::Statement(s) => self.eval_stmt(s, FUEL),
            Node::Expression(e) => self.eval_expr(e, FUEL),
        }
    }

    /// Evaluates one statement.
    pub fn eval_stmt(&mut self, s: Statement, fuel: u64) -> (r: Result<Flow<Value>, Error>)
        ensures
            ({
                let (st2, res) = eval_stmt_s(old(self)@, stmt_view(s), fuel as nat);
                final(self)@ == st2 && res_view(r) == res
            }),
        decreases fuel, s, 3nat,
    {
        match s {
            Statement::Let(l) => {
                let r = self.eval_expr(l.value, fuel);
                match r {
                    Ok(Flow::Continue(v)) => {
                        let v2 = v.deep_clone();
                        self.stack.assign(l.name.name, v);
                        Ok(Flow::Continue(v2))
                    },
                    other => other,
                }
            },
            Statement::Return(t) => {
                let r = self.eval_expr(t.value, fuel);
                match r {
                    Ok(f) => Ok(Flow::Break(f.unwrap())),
                    Err(e2) => Err(e2),
                }
            },
            Statement::Expression(e) => self.eval_expr(e, fuel),
            Statement::Empty => Ok(Flow::Continue(Value::Unit)),
        }
    }

    /// Evaluates one expression.
    pub fn eval_expr(&mut self, e: Expression, fuel: u64) -> (r: Result<Flow<Value>, Error>)
        ensures
            ({
                let (st2, res) = eval_expr_s(old(self)@, expr_view(e), fuel as nat);
                final(self)@ == st2 && res_view(r) == res
            }),
        decreases fuel, e, 3nat,
    {
        match e {
            Expression::Program(p) => self.eval_statements(p.statements, fuel),
            Expression::Ident(i) => {
                let got = self.stack.get(&i.name);
                match got {
                    Some(v) => Ok(Flow::Continue(v)),
                    None => {
                        let mut m = String::from_str("variable not found in scope: ");
                        m.append(i.name.as_str());
                        Err(Error::Eval(m))
                    },
                }
            },
            Expression::Literal(l) => match l {
                Literal::Int(v) => Ok(Flow::Continue(Value::Integer(v))),
                Literal::Str(text) => Ok(Flow::Continue(Value::Str(text))),
                Literal::Bool(b) => Ok(
                    Flow::Continue(Value::Bool(matches!(b, crate::ast::Bool::True))),
                ),
                Literal::Function { parameters, body, capture } => self.eval_function(
                    parameters,
                    *body,
                    capture,
                ),
                Literal::Collection { members } => {
                    let acc: Vec<(Ident, Value)> = Vec::new();
                    proof {
                        assert(vpairs_view(acc@) =~= Seq::<(Seq<char>, ValueV)>::empty());
                    }
                    match self.eval_members(members, acc, fuel) {
                        Ok(MembersOut::Members(ms)) => Ok(Flow::Continue(Value::Collection(ms))),
                        Ok(MembersOut::Interrupted(v)) => Ok(Flow::Break(v)),
                        Err(e2) => Err(e2),
                    }
                },
                Literal::Vector { elements } => {
                    match self.eval_args(elements, fuel) {
                        Ok(ArgsOut::Vals(vs)) => Ok(Flow::Continue(Value::Vector(vs))),
                        Ok(ArgsOut::Interrupted(v)) => Ok(Flow::Break(v)),
                        Err(e2) => Err(e2),
                    }
                },
            },
            Expression::Infix { .. } => self.eval_infix(e, fuel),
            Expression::Prefix { operator, operand } => {
                let r = self.eval_expr(*operand, fuel);
                match r {
                    Ok(Flow::Continue(v)) => match operator {
                        Token::Operator(o) => match apply_prefix(o, &v) {
                            Some(v2) => Ok(Flow::Continue(v2)),
                            None => Err(
                                Error::Eval(
                                    String::from_str("unsupported prefix operator for this operand"),
                                ),
                            ),
                        },
                        _ => Err(Error::Eval(String::from_str("prefix operator expected"))),
                    },
                    other => other,
                }
            },
            Expression::Block { statements } => {
                self.stack.push();
                let r = self.eval_statements(statements, fuel);
                self.stack.pop();
                r
            },
            Expression::If { .. } => self.eval_if(e, fuel),
            Expression::Invoked { .. } => self.eval_invoke(e, fuel),
            Expression::Indexed { .. } => self.eval_index(e, fuel),
        }
    }

    /// Evaluates a statement list: the last statement's value, unit when
    /// empty; `Break`, errors and exit requests short-circuit.
    pub fn eval_statements(&mut self, statements: Vec<Statement>, fuel: u64) -> (r: Result<
        Flow<Value>,
        Error,
    >)
        ensures
            ({
                let (st2, res) = eval_stmts_s(old(self)@, stmts_view(statements@), fuel as nat);
                final(self)@ == st2 && res_view(r) == res
            }),
        decreases fuel, statements@, 3nat,
    {
        let mut ss = statements;
        if ss.len() == 0 {
            Ok(Flow::Continue(Value::Unit))
        } else {
            let last_one = ss.len() == 1;
            let first = ss.remove(0);
            proof {
                lemma_stmts_view(statements@);
                assert(statements@.remove(0) =~= statements@.drop_first());
                assert(stmts_view(statements@).drop_first() =~= stmts_view(
                    statements@.drop_first(),
                ));
            }
            let r = self.eval_stmt(first, fuel);
            match r {
                Ok(Flow::Continue(v)) => if last_one {
                    Ok(Flow::Continue(v))
                } else {
                    self.eval_statements(ss, fuel)
                },
                other => other,
            }
        }
    }

    /// Evaluates an expression list, left to right.
    fn eval_args(&mut self, args: Vec<Expression>, fuel: u64) -> (r: Result<ArgsOut, Error>)
        ensures
            ({
                let (st2, ar) = eval_exprs_s(old(self)@, exprs_view(args@), fuel as nat);
                final(self)@ == st2 && args_out_view(r) == ar
            }),
        decreases fuel, args@, 3nat,
    {
        let mut es = args;
        if es.len() == 0 {
            let vs: Vec<Value> = Vec::new();
            proof {
                assert(values_view(vs@) =~= Seq::<ValueV>::empty());
            }
            Ok(ArgsOut::Vals(vs))
        } else {
            let first = es.remove(0);
            proof {
                lemma_exprs_view(args@);
                assert(args@.remove(0) =~= args@.drop_first());
                assert(exprs_view(args@).drop_first() =~= exprs_view(args@.drop_first()));
            }
            let r = self.eval_expr(first, fuel);
            match r {
                Ok(Flow::Continue(v)) => match self.eval_args(es, fuel) {
                    Ok(ArgsOut::Vals(mut vs)) => {
                        let ghost vs0 = vs@;
                        vs.insert(0, v);
                        proof {
                            assert(vs@ =~= seq![v] + vs0);
                            assert(vs@.drop_first() =~= vs0);
                            assert(values_view(vs@) == seq![value_view(v)] + values_view(vs0));
                        }
                        Ok(ArgsOut::Vals(vs))
                    },
                    other => other,
                },
                Ok(Flow::Break(v)) => Ok(ArgsOut::Interrupted(v)),
                Err(e2) => Err(e2),
            }
        }
    }

    /// Evaluates a collection literal's members, left to right; a repeated
    /// key keeps the later value.
    fn eval_members(
        &mut self,
        members: Vec<(Ident, Expression)>,
        acc: Vec<(Ident, Value)>,
        fuel: u64,
    ) -> (r: Result<MembersOut, Error>)
        ensures
            ({
                let (st2, pr) = eval_pairs_s(
                    old(self)@,
                    pairs_view(members@),
                    vpairs_view(acc@),
                    fuel as nat,
                );
                final(self)@ == st2 && members_out_view(r) == pr
            }),
        decreases fuel, members@, 3nat,
    {
        let mut ms = members;
        if ms.len() == 0 {
            Ok(MembersOut::Members(acc))
        } else {
            let first = ms.remove(0);
            proof {
                lemma_pairs_view(members@);
                assert(members@.remove(0) =~= members@.drop_first());
                assert(pairs_view(members@).drop_first() =~= pairs_view(members@.drop_first()));
            }
            let (k, e1) = first;
            let r = self.eval_expr(e1, fuel);
            match r {
                Ok(Flow::Continue(v)) => {
                    let acc2 = collection_set(&acc, &k, &v);
                    self.eval_members(ms, acc2, fuel)
                },
                Ok(Flow::Break(v)) => Ok(MembersOut::Interrupted(v)),
                Err(e2) => Err(e2),
            }
        }
    }

    /// Builds a function value: the capture names are snapshotted from the
    /// current environment; an unbound capture name is an error.
    pub fn eval_function(
        &mut self,
        parameters: Vec<Ident>,
        body: Expression,
        capture: Vec<Ident>,
    ) -> (r: Result<Flow<Value>, Error>)
        ensures
            final(self)@ == old(self)@,
            res_view(r) == match snap_captures(old(self)@.frames, idents_view(capture@)) {
                None => ResV::Fail,
                Some(c) => ResV::Cont(
                    ValueV::Function {
                        params: idents_view(parameters@),
                        body: expr_view(body),
                        capture: c,
                    },
                ),
            },
    {
        proof {
            assert(capture@.subrange(0, capture@.len() as int) =~= capture@);
        }
        match self.snap_captures_x(&capture, 0) {
            None => Err(
                Error::Eval(
                    String::from_str("capture of an unbound name at function declaration"),
                ),
            ),
            Some(c) => Ok(
                Flow::Continue(
                    Value::Function(Function { parameters, body: Box::new(body), capture: c }),
                ),
            ),
        }
    }

    /// Looks up each capture name from index `i` on, cloning its value.
    fn snap_captures_x(&self, names: &Vec<Ident>, i: usize) -> (r: Option<Vec<(Ident, Value)>>)
        requires
            i <= names@.len(),
        ensures
            ({
                let s = snap_captures(
                    self@.frames,
                    idents_view(names@.subrange(i as int, names@.len() as int)),
                );
                match r {
                    Some(ps) => s == Some(vpairs_view(ps@)),
                    None => s is None,
                }
            }),
        decreases names@.len() - i,
    {
        proof {
            if i < names@.len() {
                let sub = names@.subrange(i as int, names@.len() as int);
                assert(sub[0] == names@[i as int]);
                assert(sub.drop_first() =~= names@.subrange(i + 1, names@.len() as int));
                lemma_idents_view(sub);
                assert(idents_view(sub) == seq![sub[0].name@] + idents_view(sub.drop_first()));
                assert(idents_view(sub).drop_first() =~= idents_view(sub.drop_first()));
            } else {
                assert(names@.subrange(i as int, names@.len() as int) =~= Seq::<Ident>::empty());
            }
        }
        if i == names.len() {
            let ps: Vec<(Ident, Value)> = Vec::new();
            proof {
                assert(vpairs_view(ps@) =~= Seq::<(Seq<char>, ValueV)>::empty());
            }
            Some(ps)
        } else {
            match self.stack.get(&names[i].name) {
                None => None,
                Some(v) => match self.snap_captures_x(names, i + 1) {
                    None => None,
                    Some(mut rest) => {
                        let ghost rest0 = rest@;
                        let pair = (names[i].clone(), v);
                        rest.insert(0, pair);
                        proof {
                            assert(rest@ =~= seq![pair] + rest0);
                            assert(rest@.drop_first() =~= rest0);
                            assert(vpairs_view(rest@) == seq![(pair.0.name@, value_view(pair.1))]
                                + vpairs_view(rest0));
                        }
                        Some(rest)
                    },
                },
            }
        }
    }

    /// Evaluates an infix expression.
    pub fn eval_infix(&mut self, e: Expression, fuel: u64) -> (r: Result<Flow<Value>, Error>)
        ensures
            ({
                let (st2, res) = eval_infix_s(old(self)@, expr_view(e), fuel as nat);
                final(self)@ == st2 && res_view(r) == res
            }),
        decreases fuel, e, 2nat,
    {
        match e {
            Expression::Infix {
                operator: Token::Operator(
                    Operator::Assign
                    | Operator::PlusEqual
                    | Operator::MinusEqual,
                ),
                ..
            } => self.eval_assign(e, fuel),
            Expression::Infix { operator: Token::Operator(Operator::Dot), .. } => self.eval_access(
                e,
                fuel,
            ),
            Expression::Infix { operator, lhs, rhs } => {
                let r1 = self.eval_expr(*lhs, fuel);
                match r1 {
                    Ok(Flow::Continue(lv)) => {
                        let r2 = self.eval_expr(*rhs, fuel);
                        match r2 {
                            Ok(Flow::Continue(rv)) => match operator {
                                Token::Operator(o) => match apply_binop(o, &lv, &rv) {
                                    Some(v) => Ok(Flow::Continue(v)),
                                    None => Err(
                                        Error::Eval(
                                            String::from_str(
                                                "unsupported operator for these operand types",
                                            ),
                                        ),
                                    ),
                                },
                                _ => Err(Error::Eval(String::from_str("infix operator expected"))),
                            },
                            other => other,
                        }
                    },
                    other => other,
                }
            },
            _ => Err(Error::Eval(String::from_str("infix expression expected"))),
        }
    }

    /// Evaluates `=`, `+=` and `-=`.
    pub fn eval_assign(&mut self, e: Expression, fuel: u64) -> (r: Result<Flow<Value>, Error>)
        ensures
            ({
                let (st2, res) = eval_assign_s(old(self)@, expr_view(e), fuel as nat);
                final(self)@ == st2 && res_view(r) == res
            }),
        decreases fuel, e, 1nat,
    {
        let member_target = match &e {
            Expression::Infix { operator: Token::Operator(Operator::Assign), lhs, .. } => matches!(
                **lhs,
                Expression::Infix { operator: Token::Operator(Operator::Dot), .. },
            ),
            _ => false,
        };
        if member_target {
            return self.eval_access_assign(e, fuel);
        }
        match e {
            Expression::Infix { operator, lhs, rhs } => {
                proof {
                    assert(expr_view(e) == ExprV::Infix {
                        op: token_view(&operator),
                        lhs: Box::new(expr_view(*lhs)),
                        rhs: Box::new(expr_view(*rhs)),
                    });
                }
                let ghost lv = expr_view(*lhs);
                match *lhs {
                Expression::Ident(id) => {
                    proof {
                        assert(lv == ExprV::Ident(id.name@));
                    }
                    let r = self.eval_expr(*rhs, fuel);
                    match r {
                        Ok(Flow::Continue(v)) => match operator {
                            Token::Operator(Operator::Assign) => {
                                let v2 = v.deep_clone();
                                self.stack.assign(id.name, v);
                                Ok(Flow::Continue(v2))
                            },
                            Token::Operator(Operator::PlusEqual) | Token::Operator(
                                Operator::MinusEqual,
                            ) => {
                                let o = if matches!(operator, Token::Operator(Operator::PlusEqual)) {
                                    Operator::Plus
                                } else {
                                    Operator::Minus
                                };
                                match self.stack.get(&id.name) {
                                    None => Err(
                                        Error::Eval(
                                            String::from_str("identifier not found in scope"),
                                        ),
                                    ),
                                    Some(cur) => match apply_binop(o, &cur, &v) {
                                        None => Err(
                                            Error::Eval(
                                                String::from_str(
                                                    "unsupported compound assignment for these types",
                                                ),
                                            ),
                                        ),
                                        Some(v2) => {
                                            let v3 = v2.deep_clone();
                                            self.stack.assign(id.name, v2);
                                            Ok(Flow::Continue(v3))
                                        },
                                    },
                                }
                            },
                            _ => Err(
                                Error::Eval(String::from_str("assignment operator expected")),
                            ),
                        },
                        other => other,
                    }
                },
                Expression::Infix { operator: inner_op, lhs: coll_e, rhs: accessor } => {
                    proof {
                        assert(lv == ExprV::Infix {
                            op: token_view(&inner_op),
                            lhs: Box::new(expr_view(*coll_e)),
                            rhs: Box::new(expr_view(*accessor)),
                        });
                    }
                    let r = self.eval_expr(
                        Expression::Infix { operator: inner_op, lhs: coll_e, rhs: accessor },
                        fuel,
                    );
                    match r {
                        Ok(Flow::Continue(_)) => Err(
                            Error::Eval(
                                String::from_str("identifier expected in assignment"),
                            ),
                        ),
                        other => other,
                    }
                },
                other_lhs => {
                    let r = self.eval_expr(other_lhs, fuel);
                    match r {
                        Ok(Flow::Continue(_)) => Err(
                            Error::Eval(String::from_str("identifier expected in assignment")),
                        ),
                        other => other,
                    }
                },
            }
            },
            _ => Err(Error::Eval(String::from_str("assignment expression expected"))),
        }
    }

    /// Evaluates `coll.member = value`: rebinds the named collection to a
    /// copy with the member set. A target that is not a plain name is an
    /// error, since the updated copy would have no holder.
    pub fn eval_access_assign(&mut self, e: Expression, fuel: u64) -> (r: Result<
        Flow<Value>,
        Error,
    >)
        ensures
            ({
                let (st2, res) = eval_access_assign_s(old(self)@, expr_view(e), fuel as nat);
                final(self)@ == st2 && res_view(r) == res
            }),
        decreases fuel, e, 0nat,
    {
        match e {
            Expression::Infix { operator, lhs, rhs } => {
                proof {
                    assert(expr_view(e) == ExprV::Infix {
                        op: token_view(&operator),
                        lhs: Box::new(expr_view(*lhs)),
                        rhs: Box::new(expr_view(*rhs)),
                    });
                }
                let ghost lv = expr_view(*lhs);
                match *lhs {
                Expression::Infix { operator: inner_op, lhs: coll_e, rhs: accessor } => {
                    proof {
                        assert(lv == ExprV::Infix {
                            op: token_view(&inner_op),
                            lhs: Box::new(expr_view(*coll_e)),
                            rhs: Box::new(expr_view(*accessor)),
                        });
                    }
                    let ghost cv = expr_view(*coll_e);
                    let target_name: Option<String> = match &*coll_e {
                        Expression::Ident(i) => Some(i.name.clone()),
                        _ => None,
                    };
                    let ghost av = expr_view(*accessor);
                    let r1 = self.eval_expr(*coll_e, fuel);
                    match r1 {
                        Ok(Flow::Continue(Value::Collection(ms))) => match *accessor {
                            Expression::Ident(member) => {
                                proof {
                                    assert(av == ExprV::Ident(member.name@));
                                }
                                let r2 = self.eval_expr(*rhs, fuel);
                                match r2 {
                                    Ok(Flow::Continue(v)) => match target_name {
                                        Some(name) => {
                                            let ms2 = collection_set(&ms, &member, &v);
                                            self.stack.update(&name, Value::Collection(ms2));
                                            Ok(Flow::Continue(v))
                                        },
                                        None => Err(
                                            Error::Eval(
                                                String::from_str(
                                                    "member assignment needs a named collection",
                                                ),
                                            ),
                                        ),
                                    },
                                    other => other,
                                }
                            },
                            _ => Err(
                                Error::Eval(
                                    String::from_str(
                                        "collections can only be accessed through an identifier",
                                    ),
                                ),
                            ),
                        },
                        Ok(Flow::Continue(_)) => Err(
                            Error::Eval(
                                String::from_str("only collections support member assignment"),
                            ),
                        ),
                        other => other,
                    }
                },
                _ => Err(
                    Error::Eval(
                        String::from_str("member assignment needs a collection access target"),
                    ),
                ),
            }
            },
            _ => Err(Error::Eval(String::from_str("assignment expression expected"))),
        }
    }

    /// Evaluates member access `coll.member`.
    pub fn eval_access(&mut self, e: Expression, fuel: u64) -> (r: Result<Flow<Value>, Error>)
        ensures
            ({
                let (st2, res) = eval_access_s(old(self)@, expr_view(e), fuel as nat);
                final(self)@ == st2 && res_view(r) == res
            }),
        decreases fuel, e, 1nat,
    {
        match e {
            Expression::Infix { operator, lhs, rhs } => {
                proof {
                    assert(expr_view(e) == ExprV::Infix {
                        op: token_view(&operator),
                        lhs: Box::new(expr_view(*lhs)),
                        rhs: Box::new(expr_view(*rhs)),
                    });
                }
                let ghost rv = expr_view(*rhs);
                let r = self.eval_expr(*lhs, fuel);
                match r {
                    Ok(Flow::Continue(Value::Collection(ms))) => match *rhs {
                        Expression::Ident(member) => {
                            proof {
                                assert(rv == ExprV::Ident(member.name@));
                            }
                            match collection_get(&ms, &member.name) {
                                Some(v) => Ok(Flow::Continue(v)),
                                None => Err(
                                    Error::Eval(
                                        String::from_str("collection does not contain that member"),
                                    ),
                                ),
                            }
                        },
                        other_rhs => {
                            let r2 = self.eval_expr(other_rhs, fuel);
                            match r2 {
                                Ok(Flow::Continue(_)) => Err(
                                    Error::Eval(
                                        String::from_str("member access needs an identifier"),
                                    ),
                                ),
                                other => other,
                            }
                        },
                    },
                    Ok(Flow::Continue(_)) => Err(
                        Error::Eval(
                            String::from_str("accessing non-collection values is not supported"),
                        ),
                    ),
                    other => other,
                }
            },
            _ => Err(Error::Eval(String::from_str("member access expression expected"))),
        }
    }

    /// Evaluates `if`: the condition's truthiness picks the branch; a
    /// missing alternative yields unit.
    pub fn eval_if(&mut self, e: Expression, fuel: u64) -> (r: Result<Flow<Value>, Error>)
        ensures
            ({
                let (st2, res) = eval_if_s(old(self)@, expr_view(e), fuel as nat);
                final(self)@ == st2 && res_view(r) == res
            }),
        decreases fuel, e, 2nat,
    {
        match e {
            Expression::If { condition, consequence, alternative } => {
                let r = self.eval_expr(*condition, fuel);
                match r {
                    Ok(Flow::Continue(cv)) => if cv.truthy() {
                        self.eval_expr(*consequence, fuel)
                    } else {
                        match alternative {
                            Some(a) => self.eval_expr(*a, fuel),
                            None => Ok(Flow::Continue(Value::Unit)),
                        }
                    },
                    other => other,
                }
            },
            _ => Err(Error::Eval(String::from_str("if expression expected"))),
        }
    }

    /// Evaluates an indexing expression: the index first, then the indexee,
    /// then the `idx` slot.
    pub fn eval_index(&mut self, e: Expression, fuel: u64) -> (r: Result<Flow<Value>, Error>)
        ensures
            ({
                let (st2, res) = eval_index_s(old(self)@, expr_view(e), fuel as nat);
                final(self)@ == st2 && res_view(r) == res
            }),
        decreases fuel, e, 2nat,
    {
        match e {
            Expression::Indexed { indexee, index } => {
                let r1 = self.eval_expr(*index, fuel);
                match r1 {
                    Ok(Flow::Continue(iv)) => {
                        let r2 = self.eval_expr(*indexee, fuel);
                        match r2 {
                            Ok(Flow::Continue(tv)) => match apply_index(&tv, &iv) {
                                Some(v) => Ok(Flow::Continue(v)),
                                None => Err(
                                    Error::Eval(
                                        String::from_str(
                                            "indexing is not supported for these types",
                                        ),
                                    ),
                                ),
                            },
                            other => other,
                        }
                    },
                    other => other,
                }
            },
            _ => Err(Error::Eval(String::from_str("indexing expression expected"))),
        }
    }

    /// Evaluates an invocation.
    pub fn eval_invoke(&mut self, e: Expression, fuel: u64) -> (r: Result<Flow<Value>, Error>)
        ensures
            ({
                let (st2, res) = eval_invoke_s(old(self)@, expr_view(e), fuel as nat);
                final(self)@ == st2 && res_view(r) == res
            }),
        decreases fuel, e, 2nat,
    {
        match e {
            Expression::Invoked { invoked, args } => {
                let r = self.eval_expr(*invoked, fuel);
                match r {
                    Ok(Flow::Continue(fv)) => match self.eval_args(args, fuel) {
                        Ok(ArgsOut::Vals(vs)) => match fv {
                            Value::Builtin(b) => {
                                let r2 = b.call(vs, &mut self.output);
                                r2
                            },
                            Value::Function(f) => {
                                let Function { parameters, body, capture } = f;
                                let ghost params_v = idents_view(parameters@);
                                let ghost vals_v = values_view(vs@);
                                let ghost cap_v = vpairs_view(capture@);
                                proof {
                                    lemma_idents_view(parameters@);
                                    lemma_values_view(vs@);
                                }
                                if parameters.len() != vs.len() {
                                    Err(
                                        Error::Eval(
                                            String::from_str(
                                                "incorrect number of arguments for invocation",
                                            ),
                                        ),
                                    )
                                } else if fuel == 0 {
                                    Err(Error::Eval(String::from_str("call depth limit reached")))
                                } else {
                                    let ghost fs2 = self@.frames;
                                    let ghost out2 = self@.out;
                                    self.stack.push_frame();
                                    self.bind_args_x(parameters, vs);
                                    proof {
                                        let f1 = bind_args_s(initial_frame(), params_v, vals_v);
                                        assert(fs2.push(initial_frame()).last()
                                            == initial_frame());
                                        assert(on_active(fs2.push(initial_frame()), f1)
                                            =~= fs2.push(f1));
                                    }
                                    self.bind_pairs_x(capture);
                                    proof {
                                        let f1 = bind_args_s(initial_frame(), params_v, vals_v);
                                        let f2 = bind_pairs_s(f1, cap_v);
                                        assert(fs2.push(f1).last() == f1);
                                        assert(on_active(fs2.push(f1), f2) =~= fs2.push(f2));
                                        assert(self@.frames =~= fs2.push(
                                            call_frame(params_v, vals_v, cap_v),
                                        ));
                                        assert(self@ == StateV {
                                            frames: fs2.push(call_frame(params_v, vals_v, cap_v)),
                                            out: out2,
                                        });
                                    }
                                    let r2 = self.eval_expr(*body, fuel - 1);
                                    self.stack.pop_frame();
                                    match r2 {
                                        Ok(f2) => Ok(Flow::Continue(f2.unwrap())),
                                        Err(e2) => Err(e2),
                                    }
                                }
                            },
                            _ => Err(
                                Error::Eval(
                                    String::from_str("invoking non-function values is not supported"),
                                ),
                            ),
                        },
                        Ok(ArgsOut::Interrupted(v)) => Ok(Flow::Break(v)),
                        Err(e2) => Err(e2),
                    },
                    other => other,
                }
            },
            _ => Err(Error::Eval(String::from_str("invocation expression expected"))),
        }
    }

    /// Binds each parameter to the argument at the same position, in order,
    /// in the active frame.
    fn bind_args_x(&mut self, names: Vec<Ident>, vals: Vec<Value>)
        ensures
            final(self)@ == with_frames(
                old(self)@,
                on_active(
                    old(self)@.frames,
                    bind_args_s(
                        old(self)@.frames.last(),
                        idents_view(names@),
                        values_view(vals@),
                    ),
                ),
            ),
        decreases names@.len(),
    {
        let mut names = names;
        let mut vals = vals;
        if names.len() == 0 || vals.len() == 0 {
            proof {
                lemma_idents_view(names@);
                lemma_values_view(vals@);
                if old(self)@.frames.len() > 0 {
                    assert(on_active(old(self)@.frames, old(self)@.frames.last())
                        =~= old(self)@.frames);
                }
            }
        } else {
            let ghost names0 = names@;
            let ghost vals0 = vals@;
            let n = names.remove(0);
            let v = vals.remove(0);
            proof {
                lemma_idents_view(names0);
                lemma_values_view(vals0);
                assert(names0.remove(0) =~= names0.drop_first());
                assert(vals0.remove(0) =~= vals0.drop_first());
                assert(idents_view(names0).drop_first() =~= idents_view(names0.drop_first()));
                assert(values_view(vals0).drop_first() =~= values_view(vals0.drop_first()));
            }
            let ghost fs0 = self@.frames;
            self.stack.add(n.name, v);
            self.bind_args_x(names, vals);
            proof {
                if fs0.len() > 0 {
                    let f1 = fr_add(fs0.last(), idents_view(names0)[0], values_view(vals0)[0]);
                    assert(on_active(fs0, f1).last() == f1);
                    assert(on_active(fs0, f1).drop_last() =~= fs0.drop_last());
                    assert(on_active(on_active(fs0, f1), bind_args_s(
                        f1,
                        idents_view(names0).drop_first(),
                        values_view(vals0).drop_first(),
                    )) =~= on_active(fs0, bind_args_s(
                        fs0.last(),
                        idents_view(names0),
                        values_view(vals0),
                    )));
                }
            }
        }
    }

    /// Binds each captured pair, in order, in the active frame.
    fn bind_pairs_x(&mut self, pairs: Vec<(Ident, Value)>)
        ensures
            final(self)@ == with_frames(
                old(self)@,
                on_active(
                    old(self)@.frames,
                    bind_pairs_s(old(self)@.frames.last(), vpairs_view(pairs@)),
                ),
            ),
        decreases pairs@.len(),
    {
        let mut ps = pairs;
        if ps.len() == 0 {
            proof {
                if old(self)@.frames.len() > 0 {
                    assert(on_active(old(self)@.frames, old(self)@.frames.last())
                        =~= old(self)@.frames);
                }
            }
        } else {
            let first = ps.remove(0);
            proof {
                lemma_vpairs_suffix_front(pairs@);
            }
            let (n, v) = first;
            let ghost fs0 = self@.frames;
            self.stack.add(n.name, v);
            self.bind_pairs_x(ps);
            proof {
                if fs0.len() > 0 {
                    let f1 = fr_add(fs0.last(), vpairs_view(pairs@)[0].0, vpairs_view(pairs@)[0].1);
                    assert(on_active(fs0, f1).last() == f1);
                    assert(on_active(fs0, f1).drop_last() =~= fs0.drop_last());
                    assert(on_active(on_active(fs0, f1), bind_pairs_s(
                        f1,
                        vpairs_view(pairs@).drop_first(),
                    )) =~= on_active(fs0, bind_pairs_s(fs0.last(), vpairs_view(pairs@))));
                }
            }
        }
    }
}

/// Head and tail of `vpairs_view` on a non-empty list.
proof fn lemma_vpairs_suffix_front(ps: Seq<(Ident, Value)>)
    requires
        ps.len() > 0,
    ensures
        vpairs_view(ps).len() == ps.len(),
        vpairs_view(ps)[0] == (ps[0].0.name@, value_view(ps[0].1)),
        vpairs_view(ps).drop_first() == vpairs_view(ps.drop_first()),
        ps.remove(0) == ps.drop_first(),
{
    crate::object::lemma_vpairs_view(ps);
    assert(ps.remove(0) =~= ps.drop_first());
    assert(vpairs_view(ps).drop_first() =~= vpairs_view(ps.drop_first()));
}

} // verus!
