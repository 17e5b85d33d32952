//! Abstract syntax: statements, expressions and literals as produced by the
//! parser, together with their ghost mirrors (`StmtV`, `ExprV`, ...) over
//! `Seq` payloads. All contracts about programs are stated over the mirrors,
//! which can be built inside specifications.

use vstd::prelude::*;

use crate::error::Error;
use crate::token::{token_view, Token, TokenV};

verus! {

/// Either a statement or an expression; the evaluator's input.
#[derive(Debug)]
pub enum Node {
    Statement(Statement),
    Expression(Expression),
}

/// A statement: `let NAME = EXPR;`, `return EXPR;`, a bare expression, or a
/// lone `;`.
#[derive(Debug, PartialEq, Eq)]
pub enum Statement {
    Let(LetStatement),
    Return(ReturnStatement),
    Expression(Expression),
    Empty,
}

/// A parsed program: its statements plus every parse error that was
/// recorded. The parser never aborts on the first error.
#[derive(Debug, PartialEq, Eq)]
pub struct Program {
    pub statements: Vec<Statement>,
    pub errors: Vec<Error>,
}

/// `let name = value;`
#[derive(Debug, PartialEq, Eq)]
pub struct LetStatement {
    pub name: Ident,
    pub value: Expression,
}

/// `return value;`
#[derive(Debug, PartialEq, Eq)]
pub struct ReturnStatement {
    pub value: Expression,
}

/// An identifier; a plain wrapper around its text.
#[derive(Debug, PartialEq, Eq)]
pub struct Ident {
    pub name: String,
}

/// `true` or `false` in source text.
#[derive(Debug, Clone, Copy, PartialEq, Eq, Structural)]
pub enum Bool {
    True,
    False,
}

/// An expression.
#[derive(Debug, PartialEq, Eq)]
pub enum Expression {
    Program(Program),
    Ident(Ident),
    Literal(Literal),
    Infix { operator: Token, lhs: Box<Expression>, rhs: Box<Expression> },
    Prefix { operator: Token, operand: Box<Expression> },
    Block { statements: Vec<Statement> },
    If {
        condition: Box<Expression>,
        consequence: Box<Expression>,
        alternative: Option<Box<Expression>>,
    },
    Invoked { invoked: Box<Expression>, args: Vec<Expression> },
    Indexed { indexee: Box<Expression>, index: Box<Expression> },
}

/// A literal expression. `Function` carries the names it captures from the
/// enclosing scope (computed by the parser); the values are snapshotted when
/// the literal is evaluated.
#[derive(Debug, PartialEq, Eq)]
pub enum Literal {
    Int(i32),
    Str(String),
    Bool(Bool),
    Function { parameters: Vec<Ident>, body: Box<Expression>, capture: Vec<Ident> },
    Collection { members: Vec<(Ident, Expression)> },
    Vector { elements: Vec<Expression> },
}

/// Ghost mirror of [`Node`].
pub enum NodeV {
    Stmt(StmtV),
    Expr(ExprV),
}

/// Ghost mirror of [`Statement`].
pub enum StmtV {
    Let { name: Seq<char>, value: ExprV },
    Return(ExprV),
    Expr(ExprV),
    Empty,
}

/// Ghost mirror of [`Expression`] with [`Literal`] folded in.
pub enum ExprV {
    Program(Seq<StmtV>),
    Ident(Seq<char>),
    Int(i32),
    Str(Seq<char>),
    Bool(bool),
    FnLit { params: Seq<Seq<char>>, body: Box<ExprV>, capture: Seq<Seq<char>> },
    CollLit(Seq<(Seq<char>, ExprV)>),
    VecLit(Seq<ExprV>),
    Infix { op: TokenV, lhs: Box<ExprV>, rhs: Box<ExprV> },
    Prefix { op: TokenV, operand: Box<ExprV> },
    Block(Seq<StmtV>),
    If { cond: Box<ExprV>, cons: Box<ExprV>, alt: Option<Box<ExprV>> },
    Invoked { target: Box<ExprV>, args: Seq<ExprV> },
    Indexed { indexee: Box<ExprV>, index: Box<ExprV> },
}

/// The ghost value of an identifier: its text.
pub open spec fn ident_view(i: &Ident) -> Seq<char> {
    i.name@
}

/// The ghost value of a list of identifiers.
pub open spec fn idents_view(is: Seq<Ident>) -> Seq<Seq<char>>
    decreases is.len(),
{
    if is.len() == 0 {
        Seq::empty()
    } else {
        seq![ident_view(&is[0])] + idents_view(is.drop_first())
    }
}

/// The ghost value of an expression.
pub open spec fn expr_view(e: Expression) -> ExprV
    decreases e,
{
    match e {
        Expression::Program(p) => ExprV::Program(stmts_view(p.statements@)),
        Expression::Ident(i) => ExprV::Ident(i.name@),
        Expression::Literal(l) => match l {
            Literal::Int(v) => ExprV::Int(v),
            Literal::Str(s) => ExprV::Str(s@),
            Literal::Bool(b) => ExprV::Bool(b is True),
            Literal::Function { parameters, body, capture } => ExprV::FnLit {
                params: idents_view(parameters@),
                body: Box::new(expr_view(*body)),
                capture: idents_view(capture@),
            },
            Literal::Collection { members } => ExprV::CollLit(pairs_view(members@)),
            Literal::Vector { elements } => ExprV::VecLit(exprs_view(elements@)),
        },
        Expression::Infix { operator, lhs, rhs } => ExprV::Infix {
            op: token_view(&operator),
            lhs: Box::new(expr_view(*lhs)),
            rhs: Box::new(expr_view(*rhs)),
        },
        Expression::Prefix { operator, operand } => ExprV::Prefix {
            op: token_view(&operator),
            operand: Box::new(expr_view(*operand)),
        },
        Expression::Block { statements } => ExprV::Block(stmts_view(statements@)),
        Expression::If { condition, consequence, alternative } => ExprV::If {
            cond: Box::new(expr_view(*condition)),
            cons: Box::new(expr_view(*consequence)),
            alt: match alternative {
                Some(a) => Some(Box::new(expr_view(*a))),
                None => None,
            },
        },
        Expression::Invoked { invoked, args } => ExprV::Invoked {
            target: Box::new(expr_view(*invoked)),
            args: exprs_view(args@),
        },
        Expression::Indexed { indexee, index } => ExprV::Indexed {
            indexee: Box::new(expr_view(*indexee)),
            index: Box::new(expr_view(*index)),
        },
    }
}

/// The ghost value of a list of expressions.
pub open spec fn exprs_view(es: Seq<Expression>) -> Seq<ExprV>
    decreases es,
{
    if es.len() == 0 {
        Seq::empty()
    } else {
        seq![expr_view(es[0])] + exprs_view(es.drop_first())
    }
}

/// The ghost value of a collection literal's member list.
pub open spec fn pairs_view(ms: Seq<(Ident, Expression)>) -> Seq<(Seq<char>, ExprV)>
    decreases ms,
{
    if ms.len() == 0 {
        Seq::empty()
    } else {
        seq![(ms[0].0.name@, expr_view(ms[0].1))] + pairs_view(ms.drop_first())
    }
}

/// The ghost value of a statement.
pub open spec fn stmt_view(s: Statement) -> StmtV
    decreases s,
{
    match s {
        Statement::Let(l) => StmtV::Let { name: l.name.name@, value: expr_view(l.value) },
        Statement::Return(r) => StmtV::Return(expr_view(r.value)),
        Statement::Expression(e) => StmtV::Expr(expr_view(e)),
        Statement::Empty => StmtV::Empty,
    }
}

/// The ghost value of a statement list.
pub open spec fn stmts_view(ss: Seq<Statement>) -> Seq<StmtV>
    decreases ss,
{
    if ss.len() == 0 {
        Seq::empty()
    } else {
        seq![stmt_view(ss[0])] + stmts_view(ss.drop_first())
    }
}

/// The ghost value of a node.
pub open spec fn node_view(n: Node) -> NodeV {
    match n {
        Node::Statement(s) => NodeV::Stmt(stmt_view(s)),
        Node::Expression(e) => NodeV::Expr(expr_view(e)),
    }
}

impl Clone for Ident {
    /// Cloning an identifier preserves its value exactly.
    fn clone(&self) -> (r: Ident)
        ensures
            r == *self,
    {
        Ident { name: self.name.clone() }
    }
}

/// `idents_view` maps the list pointwise.
pub proof fn lemma_idents_view(is: Seq<Ident>)
    ensures
        idents_view(is).len() == is.len(),
        forall|i: int| 0 <= i < is.len() ==> #[trigger] idents_view(is)[i] == ident_view(&is[i]),
    decreases is.len(),
{
    if is.len() > 0 {
        lemma_idents_view(is.drop_first());
        assert forall|i: int| 0 <= i < is.len() implies #[trigger] idents_view(is)[i]
            == ident_view(&is[i]) by {
            if i > 0 {
                assert(idents_view(is)[i] == idents_view(is.drop_first())[i - 1]);
                assert(is.drop_first()[i - 1] == is[i]);
            }
        }
    }
}

/// Appending one identifier appends its text.
pub proof fn lemma_idents_view_push(is: Seq<Ident>, x: Ident)
    ensures
        idents_view(is.push(x)) == idents_view(is).push(x.name@),
    decreases is.len(),
{
    if is.len() == 0 {
        assert(is.push(x)[0] == x);
        assert(is.push(x).drop_first() =~= Seq::<Ident>::empty());
        assert(idents_view(Seq::<Ident>::empty()) =~= Seq::<Seq<char>>::empty());
        assert(idents_view(is.push(x)) =~= idents_view(is).push(x.name@));
    } else {
        assert(is.push(x).drop_first() =~= is.drop_first().push(x));
        lemma_idents_view_push(is.drop_first(), x);
        assert(is.push(x)[0] == is[0]);
        assert(idents_view(is.push(x)) =~= idents_view(is).push(x.name@));
    }
}

/// `stmts_view` maps the list pointwise.
pub proof fn lemma_stmts_view(ss: Seq<Statement>)
    ensures
        stmts_view(ss).len() == ss.len(),
        forall|i: int| 0 <= i < ss.len() ==> #[trigger] stmts_view(ss)[i] == stmt_view(ss[i]),
    decreases ss.len(),
{
    if ss.len() > 0 {
        lemma_stmts_view(ss.drop_first());
        assert forall|i: int| 0 <= i < ss.len() implies #[trigger] stmts_view(ss)[i]
            == stmt_view(ss[i]) by {
            if i > 0 {
                assert(stmts_view(ss)[i] == stmts_view(ss.drop_first())[i - 1]);
                assert(ss.drop_first()[i - 1] == ss[i]);
            }
        }
    }
}

/// `exprs_view` maps the list pointwise.
pub proof fn lemma_exprs_view(es: Seq<Expression>)
    ensures
        exprs_view(es).len() == es.len(),
        forall|i: int| 0 <= i < es.len() ==> #[trigger] exprs_view(es)[i] == expr_view(es[i]),
    decreases es.len(),
{
    if es.len() > 0 {
        lemma_exprs_view(es.drop_first());
        assert forall|i: int| 0 <= i < es.len() implies #[trigger] exprs_view(es)[i]
            == expr_view(es[i]) by {
            if i > 0 {
                assert(exprs_view(es)[i] == exprs_view(es.drop_first())[i - 1]);
                assert(es.drop_first()[i - 1] == es[i]);
            }
        }
    }
}

/// `pairs_view` maps the list pointwise.
pub proof fn lemma_pairs_view(ms: Seq<(Ident, Expression)>)
    ensures
        pairs_view(ms).len() == ms.len(),
        forall|i: int| 0 <= i < ms.len() ==> #[trigger] pairs_view(ms)[i] == (
            ms[i].0.name@,
            expr_view(ms[i].1),
        ),
    decreases ms.len(),
{
    if ms.len() > 0 {
        lemma_pairs_view(ms.drop_first());
        assert forall|i: int| 0 <= i < ms.len() implies #[trigger] pairs_view(ms)[i] == (
            ms[i].0.name@,
            expr_view(ms[i].1),
        ) by {
            if i > 0 {
                assert(pairs_view(ms)[i] == pairs_view(ms.drop_first())[i - 1]);
                assert(ms.drop_first()[i - 1] == ms[i]);
            }
        }
    }
}

/// Appending one statement appends its ghost value.
pub proof fn lemma_stmts_view_push(xs: Seq<Statement>, x: Statement)
    ensures
        stmts_view(xs.push(x)) == stmts_view(xs).push(stmt_view(x)),
    decreases xs.len(),
{
    if xs.len() == 0 {
        assert(xs.push(x)[0] == x);
        assert(xs.push(x).drop_first() =~= Seq::<Statement>::empty());
        assert(stmts_view(Seq::<Statement>::empty()) =~= Seq::<StmtV>::empty());
        assert(stmts_view(xs.push(x)) =~= stmts_view(xs).push(stmt_view(x)));
    } else {
        assert(xs.push(x).drop_first() =~= xs.drop_first().push(x));
        lemma_stmts_view_push(xs.drop_first(), x);
        assert(xs.push(x)[0] == xs[0]);
        assert(stmts_view(xs.push(x)) =~= stmts_view(xs).push(stmt_view(x)));
    }
}

/// Appending one expression appends its ghost value.
pub proof fn lemma_exprs_view_push(xs: Seq<Expression>, x: Expression)
    ensures
        exprs_view(xs.push(x)) == exprs_view(xs).push(expr_view(x)),
    decreases xs.len(),
{
    if xs.len() == 0 {
        assert(xs.push(x)[0] == x);
        assert(xs.push(x).drop_first() =~= Seq::<Expression>::empty());
        assert(exprs_view(Seq::<Expression>::empty()) =~= Seq::<ExprV>::empty());
        assert(exprs_view(xs.push(x)) =~= exprs_view(xs).push(expr_view(x)));
    } else {
        assert(xs.push(x).drop_first() =~= xs.drop_first().push(x));
        lemma_exprs_view_push(xs.drop_first(), x);
        assert(xs.push(x)[0] == xs[0]);
        assert(exprs_view(xs.push(x)) =~= exprs_view(xs).push(expr_view(x)));
    }
}

/// Appending one member appends its ghost value.
pub proof fn lemma_pairs_view_push(xs: Seq<(Ident, Expression)>, x: (Ident, Expression))
    ensures
        pairs_view(xs.push(x)) == pairs_view(xs).push((x.0.name@, expr_view(x.1))),
    decreases xs.len(),
{
    if xs.len() == 0 {
        assert(xs.push(x)[0] == x);
        assert(xs.push(x).drop_first() =~= Seq::<(Ident, Expression)>::empty());
        assert(pairs_view(Seq::<(Ident, Expression)>::empty()) =~= Seq::<(Seq<char>, ExprV)>::empty());
        assert(pairs_view(xs.push(x)) =~= pairs_view(xs).push((x.0.name@, expr_view(x.1))));
    } else {
        assert(xs.push(x).drop_first() =~= xs.drop_first().push(x));
        lemma_pairs_view_push(xs.drop_first(), x);
        assert(xs.push(x)[0] == xs[0]);
        assert(pairs_view(xs.push(x)) =~= pairs_view(xs).push((x.0.name@, expr_view(x.1))));
    }
}

/// Clones the identifiers of `v` from index `i` on.
fn clone_idents_from(v: &Vec<Ident>, i: usize) -> (r: Vec<Ident>)
    requires
        i <= v@.len(),
    ensures
        r@ == v@.subrange(i as int, v@.len() as int),
    decreases v@.len() - i,
{
    if i == v.len() {
        let r: Vec<Ident> = Vec::new();
        assert(r@ =~= v@.subrange(i as int, v@.len() as int));
        r
    } else {
        let first = v[i].clone();
        let mut rest = clone_idents_from(v, i + 1);
        rest.insert(0, first);
        assert(rest@ =~= v@.subrange(i as int, v@.len() as int));
        rest
    }
}

/// Clones a list of identifiers, preserving its value.
pub fn clone_idents(v: &Vec<Ident>) -> (r: Vec<Ident>)
    ensures
        r@ == v@,
{
    let r = clone_idents_from(v, 0);
    assert(v@.subrange(0, v@.len() as int) =~= v@);
    r
}

/// Clones the errors of `v` from index `i` on.
fn clone_errors_from(v: &Vec<Error>, i: usize) -> (r: Vec<Error>)
    requires
        i <= v@.len(),
    ensures
        r@ == v@.subrange(i as int, v@.len() as int),
    decreases v@.len() - i,
{
    if i == v.len() {
        let r: Vec<Error> = Vec::new();
        assert(r@ =~= v@.subrange(i as int, v@.len() as int));
        r
    } else {
        let first = v[i].clone();
        let mut rest = clone_errors_from(v, i + 1);
        rest.insert(0, first);
        assert(rest@ =~= v@.subrange(i as int, v@.len() as int));
        rest
    }
}

impl Statement {
    /// A structural copy of this statement, with the same ghost value.
    pub fn deep_clone(&self) -> (r: Statement)
        ensures
            stmt_view(r) == stmt_view(*self),
        decreases self, 0nat,
    {
        match self {
            Statement::Let(l) => Statement::Let(
                LetStatement { name: l.name.clone(), value: l.value.deep_clone() },
            ),
            Statement::Return(t) => Statement::Return(
                ReturnStatement { value: t.value.deep_clone() },
            ),
            Statement::Expression(e) => Statement::Expression(e.deep_clone()),
            Statement::Empty => Statement::Empty,
        }
    }
}

/// Clones the statements of `v` from index `i` on, preserving ghost values.
fn clone_stmts_from(v: &Vec<Statement>, i: usize) -> (r: Vec<Statement>)
    requires
        i <= v@.len(),
    ensures
        stmts_view(r@) == stmts_view(v@.subrange(i as int, v@.len() as int)),
    decreases v@, v@.len() - i,
{
    if i == v.len() {
        let r: Vec<Statement> = Vec::new();
        assert(r@ =~= v@.subrange(i as int, v@.len() as int));
        r
    } else {
        let first = v[i].deep_clone();
        let mut rest = clone_stmts_from(v, i + 1);
        let ghost rest0 = rest@;
        rest.insert(0, first);
        proof {
            assert(rest@ =~= seq![first] + rest0);
            assert(rest@.drop_first() =~= rest0);
            let whole = v@.subrange(i as int, v@.len() as int);
            assert(whole.drop_first() =~= v@.subrange(i + 1, v@.len() as int));
            assert(stmts_view(rest@) == seq![stmt_view(first)] + stmts_view(rest0));
            assert(stmts_view(whole) == seq![stmt_view(whole[0])] + stmts_view(
                whole.drop_first(),
            ));
        }
        rest
    }
}

/// Clones a statement list, preserving its ghost value.
pub fn clone_stmts(v: &Vec<Statement>) -> (r: Vec<Statement>)
    ensures
        stmts_view(r@) == stmts_view(v@),
    decreases v@, v@.len() + 1,
{
    let r = clone_stmts_from(v, 0);
    assert(v@.subrange(0, v@.len() as int) =~= v@);
    r
}

/// Clones the expressions of `v` from index `i` on, preserving ghost values.
fn clone_exprs_from(v: &Vec<Expression>, i: usize) -> (r: Vec<Expression>)
    requires
        i <= v@.len(),
    ensures
        exprs_view(r@) == exprs_view(v@.subrange(i as int, v@.len() as int)),
    decreases v@, v@.len() - i,
{
    if i == v.len() {
        let r: Vec<Expression> = Vec::new();
        assert(r@ =~= v@.subrange(i as int, v@.len() as int));
        r
    } else {
        let first = v[i].deep_clone();
        let mut rest = clone_exprs_from(v, i + 1);
        let ghost rest0 = rest@;
        rest.insert(0, first);
        proof {
            assert(rest@ =~= seq![first] + rest0);
            assert(rest@.drop_first() =~= rest0);
            let whole = v@.subrange(i as int, v@.len() as int);
            assert(whole.drop_first() =~= v@.subrange(i + 1, v@.len() as int));
            assert(exprs_view(rest@) == seq![expr_view(first)] + exprs_view(rest0));
            assert(exprs_view(whole) == seq![expr_view(whole[0])] + exprs_view(
                whole.drop_first(),
            ));
        }
        rest
    }
}

/// Clones the collection members of `v` from index `i` on.
fn clone_pairs_from(v: &Vec<(Ident, Expression)>, i: usize) -> (r: Vec<(Ident, Expression)>)
    requires
        i <= v@.len(),
    ensures
        pairs_view(r@) == pairs_view(v@.subrange(i as int, v@.len() as int)),
    decreases v@, v@.len() - i,
{
    if i == v.len() {
        let r: Vec<(Ident, Expression)> = Vec::new();
        assert(r@ =~= v@.subrange(i as int, v@.len() as int));
        r
    } else {
        let pair = &v[i];
        let first = (pair.0.clone(), pair.1.deep_clone());
        let mut rest = clone_pairs_from(v, i + 1);
        let ghost rest0 = rest@;
        rest.insert(0, first);
        proof {
            assert(rest@ =~= seq![first] + rest0);
            assert(rest@.drop_first() =~= rest0);
            let whole = v@.subrange(i as int, v@.len() as int);
            assert(whole.drop_first() =~= v@.subrange(i + 1, v@.len() as int));
            assert(pairs_view(rest@) == seq![(first.0.name@, expr_view(first.1))] + pairs_view(
                rest0,
            ));
            assert(pairs_view(whole) == seq![(whole[0].0.name@, expr_view(whole[0].1))]
                + pairs_view(whole.drop_first()));
        }
        rest
    }
}

impl Expression {
    /// A structural copy of this expression, with the same ghost value.
    pub fn deep_clone(&self) -> (r: Expression)
        ensures
            expr_view(r) == expr_view(*self),
        decreases self, 1nat,
    {
        match self {
            Expression::Program(p) => {
                let statements = clone_stmts(&p.statements);
                let errors = clone_errors_from(&p.errors, 0);
                proof {
                    assert(p.errors@.subrange(0, p.errors@.len() as int) =~= p.errors@);
                }
                Expression::Program(Program { statements, errors })
            },
            Expression::Ident(i) => Expression::Ident(i.clone()),
            Expression::Literal(l) => Expression::Literal(
                match l {
                    Literal::Int(v) => Literal::Int(*v),
                    Literal::Str(s) => Literal::Str(s.clone()),
                    Literal::Bool(b) => Literal::Bool(*b),
                    Literal::Function { parameters, body, capture } => Literal::Function {
                        parameters: clone_idents(parameters),
                        body: Box::new(body.deep_clone()),
                        capture: clone_idents(capture),
                    },
                    Literal::Collection { members } => {
                        let ms = clone_pairs_from(members, 0);
                        proof {
                            assert(members@.subrange(0, members@.len() as int) =~= members@);
                        }
                        Literal::Collection { members: ms }
                    },
                    Literal::Vector { elements } => {
                        let es = clone_exprs_from(elements, 0);
                        proof {
                            assert(elements@.subrange(0, elements@.len() as int) =~= elements@);
                        }
                        Literal::Vector { elements: es }
                    },
                },
            ),
            Expression::Infix { operator, lhs, rhs } => Expression::Infix {
                operator: operator.clone(),
                lhs: Box::new(lhs.deep_clone()),
                rhs: Box::new(rhs.deep_clone()),
            },
            Expression::Prefix { operator, operand } => Expression::Prefix {
                operator: operator.clone(),
                operand: Box::new(operand.deep_clone()),
            },
            Expression::Block { statements } => Expression::Block {
                statements: clone_stmts(statements),
            },
            Expression::If { condition, consequence, alternative } => Expression::If {
                condition: Box::new(condition.deep_clone()),
                consequence: Box::new(consequence.deep_clone()),
                alternative: match alternative {
                    Some(a) => Some(Box::new(a.deep_clone())),
                    None => None,
                },
            },
            Expression::Invoked { invoked, args } => {
                let cloned_args = clone_exprs_from(args, 0);
                proof {
                    assert(args@.subrange(0, args@.len() as int) =~= args@);
                }
                Expression::Invoked {
                    invoked: Box::new(invoked.deep_clone()),
                    args: cloned_args,
                }
            },
            Expression::Indexed { indexee, index } => Expression::Indexed {
                indexee: Box::new(indexee.deep_clone()),
                index: Box::new(index.deep_clone()),
            },
        }
    }
}

} // verus!
