//! The pre-loaded built-in bindings. Every activation frame starts with
//! these names at scope depth zero: `len`, `print`, and the two
//! process-terminating built-ins `exit` and `yeet`.

use vstd::prelude::*;
use vstd::string::StringExecFns;

use crate::object::{value_view, Builtin, Value, ValueV};

verus! {

/// The ghost value of a name-to-value pair list.
pub open spec fn svpairs_view(ps: Seq<(String, Value)>) -> Seq<(Seq<char>, ValueV)>
    decreases ps,
{
    if ps.len() == 0 {
        Seq::empty()
    } else {
        seq![(ps[0].0@, value_view(ps[0].1))] + svpairs_view(ps.drop_first())
    }
}

/// `svpairs_view` maps the list pointwise.
pub proof fn lemma_svpairs_view(ps: Seq<(String, Value)>)
    ensures
        svpairs_view(ps).len() == ps.len(),
        forall|i: int| 0 <= i < ps.len() ==> #[trigger] svpairs_view(ps)[i] == (
            ps[i].0@,
            value_view(ps[i].1),
        ),
    decreases ps.len(),
{
    if ps.len() > 0 {
        lemma_svpairs_view(ps.drop_first());
        assert forall|i: int| 0 <= i < ps.len() implies #[trigger] svpairs_view(ps)[i] == (
            ps[i].0@,
            value_view(ps[i].1),
        ) by {
            if i > 0 {
                assert(svpairs_view(ps)[i] == svpairs_view(ps.drop_first())[i - 1]);
                assert(ps.drop_first()[i - 1] == ps[i]);
            }
        }
    }
}

/// The pre-loaded bindings, in order: `len`, `print`, `exit`, `yeet`.
pub open spec fn builtins_v() -> Seq<(Seq<char>, ValueV)> {
    seq![
        ("len"@, ValueV::Builtin(Builtin::Len)),
        ("print"@, ValueV::Builtin(Builtin::Print)),
        ("exit"@, ValueV::Builtin(Builtin::Exit)),
        ("yeet"@, ValueV::Builtin(Builtin::Yeet)),
    ]
}

/// The built-in bindings that every new activation frame is seeded with.
pub fn builtins() -> (r: Vec<(String, Value)>)
    ensures
        svpairs_view(r@) == builtins_v(),
{
    let mut r: Vec<(String, Value)> = Vec::new();
    r.push((String::from_str("len"), Value::Builtin(Builtin::Len)));
    r.push((String::from_str("print"), Value::Builtin(Builtin::Print)));
    r.push((String::from_str("exit"), Value::Builtin(Builtin::Exit)));
    r.push((String::from_str("yeet"), Value::Builtin(Builtin::Yeet)));
    proof {
        lemma_svpairs_view(r@);
        assert(svpairs_view(r@) =~= builtins_v());
    }
    r
}

} // verus!
