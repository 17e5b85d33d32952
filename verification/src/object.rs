//! Run-time values. Following the language's data model, every value has a
//! kind tag ([`ObjectType`]) and supports a fixed set of named operations
//! (arithmetic and comparison dispatch, indexing, truthiness, rendering).
//! Here the per-value method tables of the dynamic design become one tagged
//! union plus total `apply_*` functions that pattern-match; a missing
//! combination is signalled by `None` exactly where a missing table slot
//! would be, and the evaluator turns that into a typed error.

use vstd::prelude::*;
use vstd::string::StringExecFns;

use crate::ast::{expr_view, idents_view, ExprV, Expression, Ident};
use crate::eval::{res_view, Error, Flow, ResV};
use crate::token::Operator;

verus! {

/// The kind tag of a run-time value.
#[derive(Debug, Clone, Copy, PartialEq, Eq, Structural)]
pub enum ObjectType {
    Bool,
    Builtin,
    Collection,
    Vector,
    Function,
    Integer,
    Str,
    Unit,
}

/// A pre-loaded native function. The set is closed: `len`, `print`, and the
/// two process-terminating names `exit` and `yeet`.
#[derive(Debug, Clone, Copy, PartialEq, Eq, Structural)]
pub enum Builtin {
    Len,
    Print,
    Exit,
    Yeet,
}

/// A user function value: parameters, body, and the name-to-value snapshot
/// taken when the `fn` literal was evaluated (its lexical capture).
#[derive(Debug)]
pub struct Function {
    pub parameters: Vec<Ident>,
    pub body: Box<Expression>,
    pub capture: Vec<(Ident, Value)>,
}

/// A run-time value.
#[derive(Debug)]
pub enum Value {
    Integer(i32),
    Bool(bool),
    Str(String),
    Unit,
    Vector(Vec<Value>),
    Collection(Vec<(Ident, Value)>),
    Function(Function),
    Builtin(Builtin),
}

/// Ghost mirror of [`Value`]: collections are association lists over
/// character sequences; lookups take the first entry with a matching key.
pub enum ValueV {
    Integer(i32),
    Bool(bool),
    Str(Seq<char>),
    Unit,
    Vector(Seq<ValueV>),
    Collection(Seq<(Seq<char>, ValueV)>),
    Function { params: Seq<Seq<char>>, body: ExprV, capture: Seq<(Seq<char>, ValueV)> },
    Builtin(Builtin),
}

/// The ghost value of a run-time value.
pub open spec fn value_view(v: Value) -> ValueV
    decreases v,
{
    match v {
        Value::Integer(i) => ValueV::Integer(i),
        Value::Bool(b) => ValueV::Bool(b),
        Value::Str(s) => ValueV::Str(s@),
        Value::Unit => ValueV::Unit,
        Value::Vector(es) => ValueV::Vector(values_view(es@)),
        Value::Collection(ms) => ValueV::Collection(vpairs_view(ms@)),
        Value::Function(f) => ValueV::Function {
            params: idents_view(f.parameters@),
            body: expr_view(*f.body),
            capture: vpairs_view(f.capture@),
        },
        Value::Builtin(b) => ValueV::Builtin(b),
    }
}

/// The ghost value of a list of values.
pub open spec fn values_view(vs: Seq<Value>) -> Seq<ValueV>
    decreases vs,
{
    if vs.len() == 0 {
        Seq::empty()
    } else {
        seq![value_view(vs[0])] + values_view(vs.drop_first())
    }
}

/// The ghost value of a name-to-value list.
pub open spec fn vpairs_view(ps: Seq<(Ident, Value)>) -> Seq<(Seq<char>, ValueV)>
    decreases ps,
{
    if ps.len() == 0 {
        Seq::empty()
    } else {
        seq![(ps[0].0.name@, value_view(ps[0].1))] + vpairs_view(ps.drop_first())
    }
}

/// The ghost value of an optional value.
pub open spec fn opt_value_view(v: Option<Value>) -> Option<ValueV> {
    match v {
        Some(v) => Some(value_view(v)),
        None => None,
    }
}

/// `values_view` maps the list pointwise.
pub proof fn lemma_values_view(vs: Seq<Value>)
    ensures
        values_view(vs).len() == vs.len(),
        forall|i: int| 0 <= i < vs.len() ==> #[trigger] values_view(vs)[i] == value_view(vs[i]),
    decreases vs.len(),
{
    if vs.len() > 0 {
        lemma_values_view(vs.drop_first());
        assert forall|i: int| 0 <= i < vs.len() implies #[trigger] values_view(vs)[i]
            == value_view(vs[i]) by {
            if i > 0 {
                assert(values_view(vs)[i] == values_view(vs.drop_first())[i - 1]);
                assert(vs.drop_first()[i - 1] == vs[i]);
            }
        }
    }
}

/// `vpairs_view` maps the list pointwise.
pub proof fn lemma_vpairs_view(ps: Seq<(Ident, Value)>)
    ensures
        vpairs_view(ps).len() == ps.len(),
        forall|i: int| 0 <= i < ps.len() ==> #[trigger] vpairs_view(ps)[i] == (
            ps[i].0.name@,
            value_view(ps[i].1),
        ),
    decreases ps.len(),
{
    if ps.len() > 0 {
        lemma_vpairs_view(ps.drop_first());
        assert forall|i: int| 0 <= i < ps.len() implies #[trigger] vpairs_view(ps)[i] == (
            ps[i].0.name@,
            value_view(ps[i].1),
        ) by {
            if i > 0 {
                assert(vpairs_view(ps)[i] == vpairs_view(ps.drop_first())[i - 1]);
                assert(ps.drop_first()[i - 1] == ps[i]);
            }
        }
    }
}

/// `values_view` distributes over concatenation.
pub proof fn lemma_values_view_concat(a: Seq<Value>, b: Seq<Value>)
    ensures
        values_view(a + b) == values_view(a) + values_view(b),
    decreases a.len(),
{
    if a.len() == 0 {
        assert(a + b =~= b);
        assert(values_view(a) + values_view(b) =~= values_view(b));
    } else {
        assert((a + b).drop_first() =~= a.drop_first() + b);
        lemma_values_view_concat(a.drop_first(), b);
        assert((a + b)[0] == a[0]);
        assert((a + b).len() > 0);
        assert(values_view(a + b) =~= values_view(a) + values_view(b));
    }
}

/// `vpairs_view` distributes over concatenation.
pub proof fn lemma_vpairs_view_concat(a: Seq<(Ident, Value)>, b: Seq<(Ident, Value)>)
    ensures
        vpairs_view(a + b) == vpairs_view(a) + vpairs_view(b),
    decreases a.len(),
{
    if a.len() == 0 {
        assert(a + b =~= b);
        assert(vpairs_view(a) + vpairs_view(b) =~= vpairs_view(b));
    } else {
        assert((a + b).drop_first() =~= a.drop_first() + b);
        lemma_vpairs_view_concat(a.drop_first(), b);
        assert((a + b)[0] == a[0]);
        assert((a + b).len() > 0);
        assert(vpairs_view(a + b) =~= vpairs_view(a) + vpairs_view(b));
    }
}

/// Unfolding facts about `vpairs_view` on the suffix of `ms` from `i`: its
/// head mirrors `ms[i]` and its tail is the view of the next suffix.
proof fn lemma_vpairs_suffix(ms: Seq<(Ident, Value)>, i: int)
    requires
        0 <= i < ms.len(),
    ensures
        vpairs_view(ms.subrange(i, ms.len() as int)).len() == ms.len() - i,
        vpairs_view(ms.subrange(i, ms.len() as int))[0] == (ms[i].0.name@, value_view(ms[i].1)),
        vpairs_view(ms.subrange(i, ms.len() as int)).drop_first() == vpairs_view(
            ms.subrange(i + 1, ms.len() as int),
        ),
{
    let whole = ms.subrange(i, ms.len() as int);
    lemma_vpairs_view(whole);
    assert(whole[0] == ms[i]);
    assert(whole.drop_first() =~= ms.subrange(i + 1, ms.len() as int));
    assert(vpairs_view(whole) == seq![(whole[0].0.name@, value_view(whole[0].1))] + vpairs_view(
        whole.drop_first(),
    ));
    assert(vpairs_view(whole).drop_first() =~= vpairs_view(whole.drop_first()));
}

/// Clones the values of `v` from index `i` on, preserving ghost values.
fn clone_values_from(v: &Vec<Value>, i: usize) -> (r: Vec<Value>)
    requires
        i <= v@.len(),
    ensures
        values_view(r@) == values_view(v@.subrange(i as int, v@.len() as int)),
    decreases v@, v@.len() - i,
{
    if i == v.len() {
        let r: Vec<Value> = Vec::new();
        assert(r@ =~= v@.subrange(i as int, v@.len() as int));
        r
    } else {
        let first = v[i].deep_clone();
        let mut rest = clone_values_from(v, i + 1);
        let ghost rest0 = rest@;
        rest.insert(0, first);
        proof {
            assert(rest@ =~= seq![first] + rest0);
            assert(rest@.drop_first() =~= rest0);
            let whole = v@.subrange(i as int, v@.len() as int);
            assert(whole.drop_first() =~= v@.subrange(i + 1, v@.len() as int));
            assert(values_view(rest@) == seq![value_view(first)] + values_view(rest0));
            assert(values_view(whole) == seq![value_view(whole[0])] + values_view(
                whole.drop_first(),
            ));
        }
        rest
    }
}

/// Clones a list of values, preserving its ghost value.
pub fn clone_values(v: &Vec<Value>) -> (r: Vec<Value>)
    ensures
        values_view(r@) == values_view(v@),
    decreases v@, v@.len() + 1,
{
    let r = clone_values_from(v, 0);
    assert(v@.subrange(0, v@.len() as int) =~= v@);
    r
}

/// Clones the name-to-value pairs of `v` from index `i` on.
fn clone_vpairs_from(v: &Vec<(Ident, Value)>, i: usize) -> (r: Vec<(Ident, Value)>)
    requires
        i <= v@.len(),
    ensures
        vpairs_view(r@) == vpairs_view(v@.subrange(i as int, v@.len() as int)),
    decreases v@, v@.len() - i,
{
    if i == v.len() {
        let r: Vec<(Ident, Value)> = Vec::new();
        assert(r@ =~= v@.subrange(i as int, v@.len() as int));
        r
    } else {
        let pair = &v[i];
        let first = (pair.0.clone(), pair.1.deep_clone());
        let mut rest = clone_vpairs_from(v, i + 1);
        let ghost rest0 = rest@;
        rest.insert(0, first);
        proof {
            assert(rest@ =~= seq![first] + rest0);
            assert(rest@.drop_first() =~= rest0);
            let whole = v@.subrange(i as int, v@.len() as int);
            assert(whole.drop_first() =~= v@.subrange(i + 1, v@.len() as int));
            assert(vpairs_view(rest@) == seq![(first.0.name@, value_view(first.1))] + vpairs_view(
                rest0,
            ));
            assert(vpairs_view(whole) == seq![(whole[0].0.name@, value_view(whole[0].1))]
                + vpairs_view(whole.drop_first()));
        }
        rest
    }
}

/// Clones a name-to-value list, preserving its ghost value.
pub fn clone_vpairs(v: &Vec<(Ident, Value)>) -> (r: Vec<(Ident, Value)>)
    ensures
        vpairs_view(r@) == vpairs_view(v@),
    decreases v@, v@.len() + 1,
{
    let r = clone_vpairs_from(v, 0);
    assert(v@.subrange(0, v@.len() as int) =~= v@);
    r
}

impl Value {
    /// A structural copy of this value, with the same ghost value.
    pub fn deep_clone(&self) -> (r: Value)
        ensures
            value_view(r) == value_view(*self),
        decreases self, 1nat,
    {
        match self {
            Value::Integer(i) => Value::Integer(*i),
            Value::Bool(b) => Value::Bool(*b),
            Value::Str(s) => Value::Str(s.clone()),
            Value::Unit => Value::Unit,
            Value::Vector(es) => Value::Vector(clone_values(es)),
            Value::Collection(ms) => Value::Collection(clone_vpairs(ms)),
            Value::Function(f) => Value::Function(
                Function {
                    parameters: crate::ast::clone_idents(&f.parameters),
                    body: Box::new(f.body.deep_clone()),
                    capture: clone_vpairs(&f.capture),
                },
            ),
            Value::Builtin(b) => Value::Builtin(*b),
        }
    }
}

impl Clone for Value {
    /// Cloning a value preserves its ghost value.
    fn clone(&self) -> (r: Value)
        ensures
            value_view(r) == value_view(*self),
    {
        self.deep_clone()
    }
}

impl Value {
    /// The kind tag of this value.
    pub fn kind(&self) -> (r: ObjectType)
        ensures
            r == kind_s(value_view(*self)),
    {
        match self {
            Value::Integer(_) => ObjectType::Integer,
            Value::Bool(_) => ObjectType::Bool,
            Value::Str(_) => ObjectType::Str,
            Value::Unit => ObjectType::Unit,
            Value::Vector(_) => ObjectType::Vector,
            Value::Collection(_) => ObjectType::Collection,
            Value::Function(_) => ObjectType::Function,
            Value::Builtin(_) => ObjectType::Builtin,
        }
    }

    /// Truthiness: positive integers, `true`, and non-empty strings are
    /// truthy; every other value is falsy.
    pub fn truthy(&self) -> (r: bool)
        ensures
            r == truthy_s(value_view(*self)),
    {
        match self {
            Value::Integer(i) => *i > 0,
            Value::Bool(b) => *b,
            Value::Str(s) => !s.as_str().is_empty(),
            _ => false,
        }
    }
}

/// The kind tag of a ghost value.
pub open spec fn kind_s(v: ValueV) -> ObjectType {
    match v {
        ValueV::Integer(_) => ObjectType::Integer,
        ValueV::Bool(_) => ObjectType::Bool,
        ValueV::Str(_) => ObjectType::Str,
        ValueV::Unit => ObjectType::Unit,
        ValueV::Vector(_) => ObjectType::Vector,
        ValueV::Collection(_) => ObjectType::Collection,
        ValueV::Function { .. } => ObjectType::Function,
        ValueV::Builtin(_) => ObjectType::Builtin,
    }
}

/// Truthiness of a ghost value.
pub open spec fn truthy_s(v: ValueV) -> bool {
    match v {
        ValueV::Integer(i) => i > 0,
        ValueV::Bool(b) => b,
        ValueV::Str(s) => s.len() > 0,
        _ => false,
    }
}

/// Whether the association list `ps` has an entry with key `k`.
pub open spec fn coll_has_key(ps: Seq<(Seq<char>, ValueV)>, k: Seq<char>) -> bool
    decreases ps.len(),
{
    if ps.len() == 0 {
        false
    } else if ps[0].0 == k {
        true
    } else {
        coll_has_key(ps.drop_first(), k)
    }
}

/// The first entry of `ps` with key `k`, if any.
pub open spec fn coll_get(ps: Seq<(Seq<char>, ValueV)>, k: Seq<char>) -> Option<ValueV>
    decreases ps.len(),
{
    if ps.len() == 0 {
        None
    } else if ps[0].0 == k {
        Some(ps[0].1)
    } else {
        coll_get(ps.drop_first(), k)
    }
}

/// The entries of `a` whose keys occur in `b`, in order; the intersection,
/// left-side values retained.
pub open spec fn coll_keep(
    a: Seq<(Seq<char>, ValueV)>,
    b: Seq<(Seq<char>, ValueV)>,
) -> Seq<(Seq<char>, ValueV)>
    decreases a.len(),
{
    if a.len() == 0 {
        Seq::empty()
    } else if coll_has_key(b, a[0].0) {
        seq![a[0]] + coll_keep(a.drop_first(), b)
    } else {
        coll_keep(a.drop_first(), b)
    }
}

/// The entries of `a` whose keys do not occur in `b`, in order.
pub open spec fn coll_drop(
    a: Seq<(Seq<char>, ValueV)>,
    b: Seq<(Seq<char>, ValueV)>,
) -> Seq<(Seq<char>, ValueV)>
    decreases a.len(),
{
    if a.len() == 0 {
        Seq::empty()
    } else if coll_has_key(b, a[0].0) {
        coll_drop(a.drop_first(), b)
    } else {
        seq![a[0]] + coll_drop(a.drop_first(), b)
    }
}

/// Union of two collections; on a duplicate key the right side wins.
pub open spec fn coll_union(
    a: Seq<(Seq<char>, ValueV)>,
    b: Seq<(Seq<char>, ValueV)>,
) -> Seq<(Seq<char>, ValueV)> {
    coll_drop(a, b) + b
}

/// `ps` with the binding for `k` set to `v`: the first entry keyed `k` is
/// replaced in place, or a new entry is appended.
pub open spec fn coll_set(
    ps: Seq<(Seq<char>, ValueV)>,
    k: Seq<char>,
    v: ValueV,
) -> Seq<(Seq<char>, ValueV)>
    decreases ps.len(),
{
    if ps.len() == 0 {
        seq![(k, v)]
    } else if ps[0].0 == k {
        seq![(k, v)] + ps.drop_first()
    } else {
        seq![ps[0]] + coll_set(ps.drop_first(), k, v)
    }
}

/// Integer operator dispatch. Arithmetic is checked: an overflowing result,
/// like any unsupported combination, is reported as absent and becomes a
/// run-time error.
pub open spec fn int_binop_s(op: Operator, a: i32, b: i32) -> Option<ValueV> {
    match op {
        Operator::Plus => match a.checked_add(b) {
            Some(c) => Some(ValueV::Integer(c)),
            None => None,
        },
        Operator::Minus => match a.checked_sub(b) {
            Some(c) => Some(ValueV::Integer(c)),
            None => None,
        },
        Operator::Multiply => match a.checked_mul(b) {
            Some(c) => Some(ValueV::Integer(c)),
            None => None,
        },
        Operator::Divide => match a.checked_div(b) {
            Some(c) => Some(ValueV::Integer(c)),
            None => None,
        },
        Operator::Equal => Some(ValueV::Bool(a == b)),
        Operator::NotEqual => Some(ValueV::Bool(a != b)),
        Operator::Less => Some(ValueV::Bool(a < b)),
        Operator::LessOrEqual => Some(ValueV::Bool(a <= b)),
        Operator::Greater => Some(ValueV::Bool(a > b)),
        Operator::GreaterOrEqual => Some(ValueV::Bool(a >= b)),
        _ => None,
    }
}

/// Binary operator dispatch over ghost values: the fixed method-table map
/// `+ - * / == != < <= > >=` on integers, `== !=` on booleans, `+` on
/// strings and vectors (concatenation), `&`/`|` on collections
/// (intersection/union). Every other combination is absent.
pub open spec fn binop_s(op: Operator, lhs: ValueV, rhs: ValueV) -> Option<ValueV> {
    match (lhs, rhs) {
        (ValueV::Integer(a), ValueV::Integer(b)) => int_binop_s(op, a, b),
        (ValueV::Bool(a), ValueV::Bool(b)) => match op {
            Operator::Equal => Some(ValueV::Bool(a == b)),
            Operator::NotEqual => Some(ValueV::Bool(a != b)),
            _ => None,
        },
        (ValueV::Str(a), ValueV::Str(b)) => match op {
            Operator::Plus => Some(ValueV::Str(a + b)),
            _ => None,
        },
        (ValueV::Vector(a), ValueV::Vector(b)) => match op {
            Operator::Plus => Some(ValueV::Vector(a + b)),
            _ => None,
        },
        (ValueV::Collection(a), ValueV::Collection(b)) => match op {
            Operator::Ampersand => Some(ValueV::Collection(coll_keep(a, b))),
            Operator::Pipe => Some(ValueV::Collection(coll_union(a, b))),
            _ => None,
        },
        _ => None,
    }
}

/// Prefix operator dispatch: `!` (logical inverse) and unary `-` are
/// defined on booleans only, both as negation, exactly as the data model's
/// `inv` and `neg` slots prescribe.
pub open spec fn prefix_s(op: Operator, v: ValueV) -> Option<ValueV> {
    match op {
        Operator::Bang | Operator::Minus => match v {
            ValueV::Bool(b) => Some(ValueV::Bool(!b)),
            _ => None,
        },
        _ => None,
    }
}

/// Indexing dispatch: a vector indexed by an integer; out-of-range yields
/// the unit value. Every other combination is absent.
pub open spec fn idx_s(target: ValueV, index: ValueV) -> Option<ValueV> {
    match (target, index) {
        (ValueV::Vector(es), ValueV::Integer(i)) => Some(
            if 0 <= i < es.len() {
                es[i as int]
            } else {
                ValueV::Unit
            },
        ),
        _ => None,
    }
}

/// The `len` slot: defined on strings and vectors, absent elsewhere or when
/// the length does not fit a 32-bit integer.
pub open spec fn len_s(v: ValueV) -> Option<i32> {
    match v {
        ValueV::Str(s) => if s.len() <= i32::MAX {
            Some(s.len() as i32)
        } else {
            None
        },
        ValueV::Vector(es) => if es.len() <= i32::MAX {
            Some(es.len() as i32)
        } else {
            None
        },
        _ => None,
    }
}

/// Whether the members of `ms`, from index `i` on, contain key `k`.
fn coll_has_key_x(ms: &Vec<(Ident, Value)>, i: usize, k: &String) -> (r: bool)
    requires
        i <= ms@.len(),
    ensures
        r == coll_has_key(vpairs_view(ms@.subrange(i as int, ms@.len() as int)), k@),
    decreases ms@.len() - i,
{
    proof {
        if i < ms@.len() {
            lemma_vpairs_suffix(ms@, i as int);
        } else {
            assert(ms@.subrange(i as int, ms@.len() as int) =~= Seq::<(Ident, Value)>::empty());
        }
    }
    if i == ms.len() {
        false
    } else if ms[i].0.name == *k {
        true
    } else {
        coll_has_key_x(ms, i + 1, k)
    }
}

/// The first member of `ms`, from index `i` on, with key `k`, cloned.
fn coll_get_x(ms: &Vec<(Ident, Value)>, i: usize, k: &String) -> (r: Option<Value>)
    requires
        i <= ms@.len(),
    ensures
        opt_value_view(r) == coll_get(vpairs_view(ms@.subrange(i as int, ms@.len() as int)), k@),
    decreases ms@.len() - i,
{
    proof {
        if i < ms@.len() {
            lemma_vpairs_suffix(ms@, i as int);
        } else {
            assert(ms@.subrange(i as int, ms@.len() as int) =~= Seq::<(Ident, Value)>::empty());
        }
    }
    if i == ms.len() {
        None
    } else if ms[i].0.name == *k {
        Some(ms[i].1.deep_clone())
    } else {
        coll_get_x(ms, i + 1, k)
    }
}

/// The first member of a collection with key `k`, cloned.
pub fn collection_get(ms: &Vec<(Ident, Value)>, k: &String) -> (r: Option<Value>)
    ensures
        opt_value_view(r) == coll_get(vpairs_view(ms@), k@),
{
    let r = coll_get_x(ms, 0, k);
    assert(ms@.subrange(0, ms@.len() as int) =~= ms@);
    r
}

/// The members of `a` (from index `i`) whose keys occur in `b`, cloned.
fn coll_keep_x(a: &Vec<(Ident, Value)>, i: usize, b: &Vec<(Ident, Value)>) -> (r: Vec<
    (Ident, Value),
>)
    requires
        i <= a@.len(),
    ensures
        vpairs_view(r@) == coll_keep(
            vpairs_view(a@.subrange(i as int, a@.len() as int)),
            vpairs_view(b@),
        ),
    decreases a@.len() - i,
{
    if i == a.len() {
        let r: Vec<(Ident, Value)> = Vec::new();
        assert(a@.subrange(i as int, a@.len() as int) =~= Seq::<(Ident, Value)>::empty());
        r
    } else {
        let ghost whole = a@.subrange(i as int, a@.len() as int);
        proof {
            lemma_vpairs_suffix(a@, i as int);
        }
        let keep = coll_has_key_x(b, 0, &a[i].0.name);
        proof {
            assert(b@.subrange(0, b@.len() as int) =~= b@);
        }
        let mut rest = coll_keep_x(a, i + 1, b);
        if keep {
            let pair = &a[i];
            let first = (pair.0.clone(), pair.1.deep_clone());
            let ghost rest0 = rest@;
            rest.insert(0, first);
            proof {
                assert(rest@ =~= seq![first] + rest0);
                assert(rest@.drop_first() =~= rest0);
                assert(vpairs_view(rest@) == seq![(first.0.name@, value_view(first.1))]
                    + vpairs_view(rest0));
            }
        }
        rest
    }
}

/// The members of `a` (from index `i`) whose keys do not occur in `b`,
/// cloned.
fn coll_drop_x(a: &Vec<(Ident, Value)>, i: usize, b: &Vec<(Ident, Value)>) -> (r: Vec<
    (Ident, Value),
>)
    requires
        i <= a@.len(),
    ensures
        vpairs_view(r@) == coll_drop(
            vpairs_view(a@.subrange(i as int, a@.len() as int)),
            vpairs_view(b@),
        ),
    decreases a@.len() - i,
{
    if i == a.len() {
        let r: Vec<(Ident, Value)> = Vec::new();
        assert(a@.subrange(i as int, a@.len() as int) =~= Seq::<(Ident, Value)>::empty());
        r
    } else {
        let ghost whole = a@.subrange(i as int, a@.len() as int);
        proof {
            lemma_vpairs_suffix(a@, i as int);
        }
        let keep = coll_has_key_x(b, 0, &a[i].0.name);
        proof {
            assert(b@.subrange(0, b@.len() as int) =~= b@);
        }
        let mut rest = coll_drop_x(a, i + 1, b);
        if !keep {
            let pair = &a[i];
            let first = (pair.0.clone(), pair.1.deep_clone());
            let ghost rest0 = rest@;
            rest.insert(0, first);
            proof {
                assert(rest@ =~= seq![first] + rest0);
                assert(rest@.drop_first() =~= rest0);
                assert(vpairs_view(rest@) == seq![(first.0.name@, value_view(first.1))]
                    + vpairs_view(rest0));
            }
        }
        rest
    }
}

/// The members of `ms` (from index `i`) with the binding for `k` set to
/// `v`: replaces the first entry keyed `k`, or appends one.
fn coll_set_x(ms: &Vec<(Ident, Value)>, i: usize, k: &Ident, v: &Value) -> (r: Vec<
    (Ident, Value),
>)
    requires
        i <= ms@.len(),
    ensures
        vpairs_view(r@) == coll_set(
            vpairs_view(ms@.subrange(i as int, ms@.len() as int)),
            k.name@,
            value_view(*v),
        ),
    decreases ms@.len() - i,
{
    if i == ms.len() {
        let mut r: Vec<(Ident, Value)> = Vec::new();
        r.push((k.clone(), v.deep_clone()));
        proof {
            assert(ms@.subrange(i as int, ms@.len() as int) =~= Seq::<(Ident, Value)>::empty());
            assert(r@.drop_first() =~= Seq::<(Ident, Value)>::empty());
            assert(vpairs_view(r@) == seq![(r@[0].0.name@, value_view(r@[0].1))] + vpairs_view(
                r@.drop_first(),
            ));
        }
        r
    } else {
        let ghost whole = ms@.subrange(i as int, ms@.len() as int);
        proof {
            lemma_vpairs_suffix(ms@, i as int);
        }
        if ms[i].0.name == k.name {
            let mut r = clone_vpairs_from(ms, i + 1);
            let ghost rest0 = r@;
            r.insert(0, (k.clone(), v.deep_clone()));
            proof {
                assert(r@.drop_first() =~= rest0);
                assert(vpairs_view(r@) == seq![(r@[0].0.name@, value_view(r@[0].1))] + vpairs_view(
                    rest0,
                ));
            }
            r
        } else {
            let pair = &ms[i];
            let first = (pair.0.clone(), pair.1.deep_clone());
            let mut rest = coll_set_x(ms, i + 1, k, v);
            let ghost rest0 = rest@;
            rest.insert(0, first);
            proof {
                assert(rest@ =~= seq![first] + rest0);
                assert(rest@.drop_first() =~= rest0);
                assert(vpairs_view(rest@) == seq![(first.0.name@, value_view(first.1))]
                    + vpairs_view(rest0));
            }
            rest
        }
    }
}

/// A copy of the collection members `ms` with the binding for `k` set to
/// `v`.
pub fn collection_set(ms: &Vec<(Ident, Value)>, k: &Ident, v: &Value) -> (r: Vec<(Ident, Value)>)
    ensures
        vpairs_view(r@) == coll_set(vpairs_view(ms@), k.name@, value_view(*v)),
{
    let r = coll_set_x(ms, 0, k, v);
    assert(ms@.subrange(0, ms@.len() as int) =~= ms@);
    r
}

/// Binary operator dispatch on values; `None` means the combination is
/// unsupported (or, for checked integer arithmetic, out of range).
pub fn apply_binop(op: Operator, lhs: &Value, rhs: &Value) -> (r: Option<Value>)
    ensures
        opt_value_view(r) == binop_s(op, value_view(*lhs), value_view(*rhs)),
{
    match (lhs, rhs) {
        (Value::Integer(a), Value::Integer(b)) => match op {
            Operator::Plus => match a.checked_add(*b) {
                Some(c) => Some(Value::Integer(c)),
                None => None,
            },
            Operator::Minus => match a.checked_sub(*b) {
                Some(c) => Some(Value::Integer(c)),
                None => None,
            },
            Operator::Multiply => match a.checked_mul(*b) {
                Some(c) => Some(Value::Integer(c)),
                None => None,
            },
            Operator::Divide => match a.checked_div(*b) {
                Some(c) => Some(Value::Integer(c)),
                None => None,
            },
            Operator::Equal => Some(Value::Bool(*a == *b)),
            Operator::NotEqual => Some(Value::Bool(*a != *b)),
            Operator::Less => Some(Value::Bool(*a < *b)),
            Operator::LessOrEqual => Some(Value::Bool(*a <= *b)),
            Operator::Greater => Some(Value::Bool(*a > *b)),
            Operator::GreaterOrEqual => Some(Value::Bool(*a >= *b)),
            _ => None,
        },
        (Value::Bool(a), Value::Bool(b)) => match op {
            Operator::Equal => Some(Value::Bool(*a == *b)),
            Operator::NotEqual => Some(Value::Bool(*a != *b)),
            _ => None,
        },
        (Value::Str(a), Value::Str(b)) => match op {
            Operator::Plus => {
                let mut s = a.clone();
                s.append(b.as_str());
                Some(Value::Str(s))
            },
            _ => None,
        },
        (Value::Vector(a), Value::Vector(b)) => match op {
            Operator::Plus => {
                let mut r = clone_values(a);
                let ghost r0 = r@;
                let mut tail = clone_values(b);
                let ghost tail0 = tail@;
                r.append(&mut tail);
                proof {
                    assert(r@ =~= r0 + tail0);
                    lemma_values_view_concat(r0, tail0);
                }
                Some(Value::Vector(r))
            },
            _ => None,
        },
        (Value::Collection(a), Value::Collection(b)) => match op {
            Operator::Ampersand => {
                let r = coll_keep_x(a, 0, b);
                proof {
                    assert(a@.subrange(0, a@.len() as int) =~= a@);
                }
                Some(Value::Collection(r))
            },
            Operator::Pipe => {
                let mut r = coll_drop_x(a, 0, b);
                let ghost r0 = r@;
                let mut tail = clone_vpairs(b);
                let ghost tail0 = tail@;
                r.append(&mut tail);
                proof {
                    assert(a@.subrange(0, a@.len() as int) =~= a@);
                    assert(r@ =~= r0 + tail0);
                    lemma_vpairs_view_concat(r0, tail0);
                }
                Some(Value::Collection(r))
            },
            _ => None,
        },
        _ => None,
    }
}

/// Prefix operator dispatch on values.
pub fn apply_prefix(op: Operator, v: &Value) -> (r: Option<Value>)
    ensures
        opt_value_view(r) == prefix_s(op, value_view(*v)),
{
    match op {
        Operator::Bang | Operator::Minus => match v {
            Value::Bool(b) => Some(Value::Bool(!*b)),
            _ => None,
        },
        _ => None,
    }
}

/// Indexing dispatch on values; a cloned element, or unit when out of
/// range.
pub fn apply_index(target: &Value, index: &Value) -> (r: Option<Value>)
    ensures
        opt_value_view(r) == idx_s(value_view(*target), value_view(*index)),
{
    match (target, index) {
        (Value::Vector(es), Value::Integer(i)) => {
            proof {
                lemma_values_view(es@);
            }
            if 0 <= *i && (*i as usize) < es.len() {
                Some(es[*i as usize].deep_clone())
            } else {
                Some(Value::Unit)
            }
        },
        _ => None,
    }
}

/// The decimal digit `d` as a character.
pub open spec fn digit_char(d: int) -> char {
    if d == 0 {
        '0'
    } else if d == 1 {
        '1'
    } else if d == 2 {
        '2'
    } else if d == 3 {
        '3'
    } else if d == 4 {
        '4'
    } else if d == 5 {
        '5'
    } else if d == 6 {
        '6'
    } else if d == 7 {
        '7'
    } else if d == 8 {
        '8'
    } else {
        '9'
    }
}

/// The decimal text of a non-negative number.
pub open spec fn nat_text(n: int) -> Seq<char>
    decreases n,
{
    if n < 10 {
        seq![digit_char(n)]
    } else {
        nat_text(n / 10).push(digit_char(n % 10))
    }
}

/// The decimal text of an integer, with a leading minus sign if negative.
pub open spec fn int_text(n: int) -> Seq<char> {
    if n < 0 {
        seq!['-'] + nat_text(-n)
    } else {
        nat_text(n)
    }
}

/// The `str` slot: the printed text of a ghost value. Unit renders as
/// `null`; vectors and collections render their contents recursively;
/// functions and built-ins render as opaque tags.
pub open spec fn render_s(v: ValueV) -> Seq<char>
    decreases v,
{
    match v {
        ValueV::Integer(i) => int_text(i as int),
        ValueV::Bool(b) => if b {
            "true"@
        } else {
            "false"@
        },
        ValueV::Str(s) => s,
        ValueV::Unit => "null"@,
        ValueV::Vector(es) => seq!['['] + render_list_s(es) + seq![']'],
        ValueV::Collection(ms) => seq!['{'] + render_pairs_s(ms) + seq!['}'],
        ValueV::Function { .. } => "Function"@,
        ValueV::Builtin(_) => "Builtin"@,
    }
}

/// The printed texts of a list of values, joined by `", "`.
pub open spec fn render_list_s(vs: Seq<ValueV>) -> Seq<char>
    decreases vs,
{
    if vs.len() == 0 {
        Seq::empty()
    } else if vs.len() == 1 {
        render_s(vs[0])
    } else {
        render_s(vs[0]) + seq![',', ' '] + render_list_s(vs.drop_first())
    }
}

/// The printed `key: value` texts of collection members, joined by `", "`.
pub open spec fn render_pairs_s(ps: Seq<(Seq<char>, ValueV)>) -> Seq<char>
    decreases ps,
{
    if ps.len() == 0 {
        Seq::empty()
    } else if ps.len() == 1 {
        ps[0].0 + seq![':', ' '] + render_s(ps[0].1)
    } else {
        ps[0].0 + seq![':', ' '] + render_s(ps[0].1) + seq![',', ' '] + render_pairs_s(
            ps.drop_first(),
        )
    }
}

/// Appends the digit `d` to `s`.
fn push_digit(s: &mut String, d: u32)
    requires
        d < 10,
    ensures
        final(s)@ == old(s)@.push(digit_char(d as int)),
{
    if d == 0 {
        s.append("0");
        proof {
            reveal_strlit("0");
            assert(s@ =~= old(s)@.push('0'));
        }
    } else if d == 1 {
        s.append("1");
        proof {
            reveal_strlit("1");
            assert(s@ =~= old(s)@.push('1'));
        }
    } else if d == 2 {
        s.append("2");
        proof {
            reveal_strlit("2");
            assert(s@ =~= old(s)@.push('2'));
        }
    } else if d == 3 {
        s.append("3");
        proof {
            reveal_strlit("3");
            assert(s@ =~= old(s)@.push('3'));
        }
    } else if d == 4 {
        s.append("4");
        proof {
            reveal_strlit("4");
            assert(s@ =~= old(s)@.push('4'));
        }
    } else if d == 5 {
        s.append("5");
        proof {
            reveal_strlit("5");
            assert(s@ =~= old(s)@.push('5'));
        }
    } else if d == 6 {
        s.append("6");
        proof {
            reveal_strlit("6");
            assert(s@ =~= old(s)@.push('6'));
        }
    } else if d == 7 {
        s.append("7");
        proof {
            reveal_strlit("7");
            assert(s@ =~= old(s)@.push('7'));
        }
    } else if d == 8 {
        s.append("8");
        proof {
            reveal_strlit("8");
            assert(s@ =~= old(s)@.push('8'));
        }
    } else {
        s.append("9");
        proof {
            reveal_strlit("9");
            assert(s@ =~= old(s)@.push('9'));
        }
    }
}

/// The decimal text of `n`.
fn nat_to_string(n: u32) -> (r: String)
    ensures
        r@ == nat_text(n as int),
    decreases n,
{
    if n < 10 {
        let mut s = String::new();
        push_digit(&mut s, n);
        proof {
            assert(s@ =~= seq![digit_char(n as int)]);
        }
        s
    } else {
        let mut s = nat_to_string(n / 10);
        push_digit(&mut s, n % 10);
        s
    }
}

/// The decimal text of `v`, with a minus sign if negative.
fn int_to_string(v: i32) -> (r: String)
    ensures
        r@ == int_text(v as int),
{
    if v >= 0 {
        nat_to_string(v as u32)
    } else {
        let m: u32 = (-(v as i64)) as u32;
        let mut s = String::from_str("-");
        let tail = nat_to_string(m);
        s.append(tail.as_str());
        proof {
            reveal_strlit("-");
            assert(s@ =~= seq!['-'] + nat_text(-(v as int)));
        }
        s
    }
}

/// Unfolding facts about `values_view` on the suffix of `vs` from `i`.
proof fn lemma_values_suffix(vs: Seq<Value>, i: int)
    requires
        0 <= i < vs.len(),
    ensures
        values_view(vs.subrange(i, vs.len() as int)).len() == vs.len() - i,
        values_view(vs.subrange(i, vs.len() as int))[0] == value_view(vs[i]),
        values_view(vs.subrange(i, vs.len() as int)).drop_first() == values_view(
            vs.subrange(i + 1, vs.len() as int),
        ),
{
    let whole = vs.subrange(i, vs.len() as int);
    lemma_values_view(whole);
    assert(whole[0] == vs[i]);
    assert(whole.drop_first() =~= vs.subrange(i + 1, vs.len() as int));
    assert(values_view(whole) == seq![value_view(whole[0])] + values_view(whole.drop_first()));
    assert(values_view(whole).drop_first() =~= values_view(whole.drop_first()));
}

/// The joined printed texts of the values of `es` from index `i` on.
fn render_elems_from(es: &Vec<Value>, i: usize) -> (r: String)
    requires
        i <= es@.len(),
    ensures
        r@ == render_list_s(values_view(es@.subrange(i as int, es@.len() as int))),
    decreases es@, es@.len() - i,
{
    if i == es.len() {
        proof {
            assert(es@.subrange(i as int, es@.len() as int) =~= Seq::<Value>::empty());
        }
        String::new()
    } else {
        proof {
            lemma_values_suffix(es@, i as int);
        }
        let mut s = render_value(&es[i]);
        if i + 1 < es.len() {
            s.append(", ");
            let tail = render_elems_from(es, i + 1);
            s.append(tail.as_str());
            proof {
                reveal_strlit(", ");
                assert(s@ =~= render_s(value_view(es@[i as int])) + seq![',', ' ']
                    + render_list_s(values_view(es@.subrange(i + 1, es@.len() as int))));
            }
        }
        s
    }
}

/// The joined printed `key: value` texts of the members of `ms` from `i` on.
fn render_pairs_from(ms: &Vec<(Ident, Value)>, i: usize) -> (r: String)
    requires
        i <= ms@.len(),
    ensures
        r@ == render_pairs_s(vpairs_view(ms@.subrange(i as int, ms@.len() as int))),
    decreases ms@, ms@.len() - i,
{
    if i == ms.len() {
        proof {
            assert(ms@.subrange(i as int, ms@.len() as int) =~= Seq::<(Ident, Value)>::empty());
        }
        String::new()
    } else {
        proof {
            lemma_vpairs_suffix(ms@, i as int);
        }
        let mut s = ms[i].0.name.clone();
        s.append(": ");
        let rendered = render_value(&ms[i].1);
        s.append(rendered.as_str());
        proof {
            reveal_strlit(": ");
        }
        if i + 1 < ms.len() {
            s.append(", ");
            let tail = render_pairs_from(ms, i + 1);
            s.append(tail.as_str());
            proof {
                reveal_strlit(", ");
                assert(s@ =~= ms@[i as int].0.name@ + seq![':', ' '] + render_s(
                    value_view(ms@[i as int].1),
                ) + seq![',', ' '] + render_pairs_s(
                    vpairs_view(ms@.subrange(i + 1, ms@.len() as int)),
                ));
            }
        } else {
            proof {
                assert(s@ =~= ms@[i as int].0.name@ + seq![':', ' '] + render_s(
                    value_view(ms@[i as int].1),
                ));
            }
        }
        s
    }
}

/// The printed text of a value: its `str` slot, defined for every kind.
pub fn render_value(v: &Value) -> (r: String)
    ensures
        r@ == render_s(value_view(*v)),
    decreases v, 1nat,
{
    match v {
        Value::Integer(i) => int_to_string(*i),
        Value::Bool(b) => if *b {
            String::from_str("true")
        } else {
            String::from_str("false")
        },
        Value::Str(s) => s.clone(),
        Value::Unit => String::from_str("null"),
        Value::Vector(es) => {
            let mut s = String::from_str("[");
            let inner = render_elems_from(es, 0);
            s.append(inner.as_str());
            s.append("]");
            proof {
                reveal_strlit("[");
                reveal_strlit("]");
                assert(es@.subrange(0, es@.len() as int) =~= es@);
                assert(s@ =~= seq!['['] + render_list_s(values_view(es@)) + seq![']']);
            }
            s
        },
        Value::Collection(ms) => {
            let mut s = String::from_str("{");
            let inner = render_pairs_from(ms, 0);
            s.append(inner.as_str());
            s.append("}");
            proof {
                reveal_strlit("{");
                reveal_strlit("}");
                assert(ms@.subrange(0, ms@.len() as int) =~= ms@);
                assert(s@ =~= seq!['{'] + render_pairs_s(vpairs_view(ms@)) + seq!['}']);
            }
            s
        },
        Value::Function(_) => String::from_str("Function"),
        Value::Builtin(_) => String::from_str("Builtin"),
    }
}

/// The ghost value of a list of strings (the evaluator's output lines).
pub open spec fn strings_view(ss: Seq<String>) -> Seq<Seq<char>>
    decreases ss,
{
    if ss.len() == 0 {
        Seq::empty()
    } else {
        seq![ss[0]@] + strings_view(ss.drop_first())
    }
}

/// `strings_view` maps the list pointwise.
pub proof fn lemma_strings_view(ss: Seq<String>)
    ensures
        strings_view(ss).len() == ss.len(),
        forall|i: int| 0 <= i < ss.len() ==> #[trigger] strings_view(ss)[i] == ss[i]@,
    decreases ss.len(),
{
    if ss.len() > 0 {
        lemma_strings_view(ss.drop_first());
        assert forall|i: int| 0 <= i < ss.len() implies #[trigger] strings_view(ss)[i]
            == ss[i]@ by {
            if i > 0 {
                assert(strings_view(ss)[i] == strings_view(ss.drop_first())[i - 1]);
                assert(ss.drop_first()[i - 1] == ss[i]);
            }
        }
    }
}

/// Appending one string appends its view.
pub proof fn lemma_strings_view_push(ss: Seq<String>, x: String)
    ensures
        strings_view(ss.push(x)) == strings_view(ss).push(x@),
    decreases ss.len(),
{
    if ss.len() == 0 {
        assert(ss.push(x)[0] == x);
        assert(ss.push(x).drop_first() =~= Seq::<String>::empty());
        assert(strings_view(Seq::<String>::empty()) =~= Seq::<Seq<char>>::empty());
        assert(strings_view(ss.push(x)) =~= strings_view(ss).push(x@));
    } else {
        assert(ss.push(x).drop_first() =~= ss.drop_first().push(x));
        lemma_strings_view_push(ss.drop_first(), x);
        assert(ss.push(x)[0] == ss[0]);
        assert(strings_view(ss.push(x)) =~= strings_view(ss).push(x@));
    }
}

/// The outcome of calling the built-in `b` on `args` with pending output
/// `out`: the new output and the result. `len` requires one argument with a
/// `len` slot; `print` renders its one argument and appends a line;
/// `exit`/`yeet` take no arguments and request program termination.
pub open spec fn builtin_call_s(b: Builtin, args: Seq<ValueV>, out: Seq<Seq<char>>) -> (
    Seq<Seq<char>>,
    ResV,
) {
    match b {
        Builtin::Len => (
            out,
            if args.len() == 1 {
                match len_s(args[0]) {
                    Some(i) => ResV::Cont(ValueV::Integer(i)),
                    None => ResV::Fail,
                }
            } else {
                ResV::Fail
            },
        ),
        Builtin::Print => if args.len() == 1 {
            (out.push(render_s(args[0])), ResV::Cont(ValueV::Unit))
        } else {
            (out, ResV::Fail)
        },
        Builtin::Exit | Builtin::Yeet => (
            out,
            if args.len() == 0 {
                ResV::Exit
            } else {
                ResV::Fail
            },
        ),
    }
}

impl Builtin {
    /// Runs this built-in on `args`; `print` appends its line to `out`.
    pub fn call(&self, args: Vec<Value>, out: &mut Vec<String>) -> (r: Result<Flow<Value>, Error>)
        ensures
            ({
                let (out2, res) = builtin_call_s(*self, values_view(args@), strings_view(old(out)@));
                strings_view(final(out)@) == out2 && res_view(r) == res
            }),
    {
        proof {
            lemma_values_view(args@);
        }
        match self {
            Builtin::Len => {
                if args.len() != 1 {
                    Err(Error::Eval(String::from_str("len takes exactly one argument")))
                } else {
                    match value_len(&args[0]) {
                        Some(i) => Ok(Flow::Continue(Value::Integer(i))),
                        None => Err(
                            Error::Eval(String::from_str("value does not support the len slot")),
                        ),
                    }
                }
            },
            Builtin::Print => {
                if args.len() != 1 {
                    Err(Error::Eval(String::from_str("print takes exactly one argument")))
                } else {
                    let line = render_value(&args[0]);
                    proof {
                        lemma_strings_view_push(out@, line);
                    }
                    out.push(line);
                    Ok(Flow::Continue(Value::Unit))
                }
            },
            Builtin::Exit | Builtin::Yeet => {
                if args.len() != 0 {
                    Err(Error::Eval(String::from_str("exit takes no arguments")))
                } else {
                    Err(Error::Exit)
                }
            },
        }
    }
}

/// The `len` slot on values.
pub fn value_len(v: &Value) -> (r: Option<i32>)
    ensures
        r == len_s(value_view(*v)),
{
    match v {
        Value::Str(s) => {
            let l = s.as_str().unicode_len();
            if l <= i32::MAX as usize {
                Some(l as i32)
            } else {
                None
            }
        },
        Value::Vector(es) => {
            proof {
                lemma_values_view(es@);
            }
            let l = es.len();
            if l <= i32::MAX as usize {
                Some(l as i32)
            } else {
                None
            }
        },
        _ => None,
    }
}

} // verus!
