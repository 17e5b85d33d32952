//! The environment: a stack of activation frames, each holding one flat
//! list of name-to-value bindings plus a stack of scope marks. Entering a
//! lexical scope records the current binding count; leaving it truncates
//! the bindings back to that mark, so exactly the bindings introduced in
//! the popped scope disappear and every shadowed outer binding reappears.
//! Lookup walks the innermost frame only: outer frames are invisible, and
//! function bodies reach outer values only through their capture list.

use vstd::prelude::*;

use crate::builtin::{builtins, builtins_v, lemma_svpairs_view, svpairs_view};
use crate::object::{opt_value_view, value_view, Value, ValueV};

verus! {

/// One activation frame: its bindings, newest last, and the scope marks.
/// Each mark is the binding count at the moment the scope was entered.
#[derive(Debug)]
pub struct Frame {
    pub bindings: Vec<(String, Value)>,
    pub marks: Vec<usize>,
}

/// The environment stack; the last frame is the active one.
#[derive(Debug)]
pub struct Stack {
    pub frames: Vec<Frame>,
}

/// Ghost mirror of [`Frame`].
pub struct FrameV {
    pub binds: Seq<(Seq<char>, ValueV)>,
    pub marks: Seq<usize>,
}

/// The ghost value of a frame.
pub open spec fn frame_view(f: &Frame) -> FrameV {
    FrameV { binds: svpairs_view(f.bindings@), marks: f.marks@ }
}

/// The ghost value of a frame list.
pub open spec fn frames_view(fs: Seq<Frame>) -> Seq<FrameV>
    decreases fs,
{
    if fs.len() == 0 {
        Seq::empty()
    } else {
        seq![frame_view(&fs[0])] + frames_view(fs.drop_first())
    }
}

/// `frames_view` maps the list pointwise.
pub proof fn lemma_frames_view(fs: Seq<Frame>)
    ensures
        frames_view(fs).len() == fs.len(),
        forall|i: int| 0 <= i < fs.len() ==> #[trigger] frames_view(fs)[i] == frame_view(&fs[i]),
    decreases fs.len(),
{
    if fs.len() > 0 {
        lemma_frames_view(fs.drop_first());
        assert forall|i: int| 0 <= i < fs.len() implies #[trigger] frames_view(fs)[i]
            == frame_view(&fs[i]) by {
            if i > 0 {
                assert(frames_view(fs)[i] == frames_view(fs.drop_first())[i - 1]);
                assert(fs.drop_first()[i - 1] == fs[i]);
            }
        }
    }
}

/// Appending one binding appends its view.
pub proof fn lemma_svpairs_push(ps: Seq<(String, Value)>, x: (String, Value))
    ensures
        svpairs_view(ps.push(x)) == svpairs_view(ps).push((x.0@, value_view(x.1))),
    decreases ps.len(),
{
    if ps.len() == 0 {
        assert(ps.push(x)[0] == x);
        assert(ps.push(x).drop_first() =~= Seq::<(String, Value)>::empty());
        assert(svpairs_view(Seq::<(String, Value)>::empty()) =~= Seq::<(Seq<char>, ValueV)>::empty());
        assert(svpairs_view(ps.push(x)) =~= svpairs_view(ps).push((x.0@, value_view(x.1))));
    } else {
        assert(ps.push(x).drop_first() =~= ps.drop_first().push(x));
        lemma_svpairs_push(ps.drop_first(), x);
        assert(ps.push(x)[0] == ps[0]);
        assert(svpairs_view(ps.push(x)) =~= svpairs_view(ps).push((x.0@, value_view(x.1))));
    }
}

/// Dropping the last binding drops its view.
pub proof fn lemma_svpairs_drop_last(ps: Seq<(String, Value)>)
    requires
        ps.len() > 0,
    ensures
        svpairs_view(ps.drop_last()) == svpairs_view(ps).drop_last(),
{
    lemma_svpairs_view(ps);
    lemma_svpairs_view(ps.drop_last());
    assert(svpairs_view(ps.drop_last()) =~= svpairs_view(ps).drop_last());
}

/// A prefix of the view is the view of the prefix.
pub proof fn lemma_svpairs_take(ps: Seq<(String, Value)>, k: int)
    requires
        0 <= k <= ps.len(),
    ensures
        svpairs_view(ps.take(k)) == svpairs_view(ps).take(k),
{
    lemma_svpairs_view(ps);
    lemma_svpairs_view(ps.take(k));
    assert(svpairs_view(ps.take(k)) =~= svpairs_view(ps).take(k));
}

/// The frame every call starts from: the built-ins, no scope marks.
pub open spec fn initial_frame() -> FrameV {
    FrameV { binds: builtins_v(), marks: Seq::empty() }
}

/// The most recent binding for `n`, scanning newest first.
pub open spec fn lookup_binds(bs: Seq<(Seq<char>, ValueV)>, n: Seq<char>) -> Option<ValueV>
    decreases bs.len(),
{
    if bs.len() == 0 {
        None
    } else if bs.last().0 == n {
        Some(bs.last().1)
    } else {
        lookup_binds(bs.drop_last(), n)
    }
}

/// The binding count at which the current scope began; the base scope
/// starts at zero (so it may rebind the built-ins).
pub open spec fn cur_mark(f: FrameV) -> int {
    if f.marks.len() == 0 {
        0int
    } else {
        f.marks.last() as int
    }
}

/// Rebinds `n` to `v` in the current scope: replaces the most recent
/// binding for `n` at position `m` or later, or appends a new one.
pub open spec fn assign_binds(
    bs: Seq<(Seq<char>, ValueV)>,
    n: Seq<char>,
    v: ValueV,
    m: int,
) -> Seq<(Seq<char>, ValueV)>
    decreases bs.len(),
{
    if bs.len() == 0 || bs.len() <= m {
        bs.push((n, v))
    } else if bs.last().0 == n {
        bs.drop_last().push((n, v))
    } else {
        assign_binds(bs.drop_last(), n, v, m).push(bs.last())
    }
}

/// Removes the most recent binding for `n`, returning the remaining
/// bindings and the removed value, if any.
pub open spec fn take_binds(bs: Seq<(Seq<char>, ValueV)>, n: Seq<char>) -> (
    Seq<(Seq<char>, ValueV)>,
    Option<ValueV>,
)
    decreases bs.len(),
{
    if bs.len() == 0 {
        (bs, None)
    } else if bs.last().0 == n {
        (bs.drop_last(), Some(bs.last().1))
    } else {
        let (r, v) = take_binds(bs.drop_last(), n);
        (r.push(bs.last()), v)
    }
}

/// A frame with one more binding in its current scope.
pub open spec fn fr_add(f: FrameV, n: Seq<char>, v: ValueV) -> FrameV {
    FrameV { binds: f.binds.push((n, v)), marks: f.marks }
}

/// A frame with `n` rebound to `v` in its current scope.
pub open spec fn fr_assign(f: FrameV, n: Seq<char>, v: ValueV) -> FrameV {
    FrameV { binds: assign_binds(f.binds, n, v, cur_mark(f)), marks: f.marks }
}

/// A frame that has entered one more lexical scope.
pub open spec fn fr_push(f: FrameV) -> FrameV {
    FrameV { binds: f.binds, marks: f.marks.push(f.binds.len() as usize) }
}

/// A frame that has left its current scope: the bindings are cut back to
/// the mark, so exactly the bindings made since entering it disappear.
/// Leaving the base scope is a no-op.
pub open spec fn fr_pop(f: FrameV) -> FrameV {
    if f.marks.len() == 0 {
        f
    } else {
        let m = f.marks.last() as int;
        FrameV {
            binds: if m <= f.binds.len() {
                f.binds.take(m)
            } else {
                f.binds
            },
            marks: f.marks.drop_last(),
        }
    }
}

/// A frame with the most recent binding for `n`, in whatever scope, set to
/// `v`; without one, a new binding in the current scope. This is how
/// member-assignment on a named collection writes the updated collection
/// back.
pub open spec fn fr_update(f: FrameV, n: Seq<char>, v: ValueV) -> FrameV {
    FrameV { binds: assign_binds(f.binds, n, v, 0), marks: f.marks }
}

/// The stack after an operation on its active frame; without frames it is
/// unchanged.
pub open spec fn on_active(fs: Seq<FrameV>, f2: FrameV) -> Seq<FrameV> {
    if fs.len() == 0 {
        fs
    } else {
        fs.drop_last().push(f2)
    }
}

/// The value of `n` in the active frame, if bound there.
pub open spec fn frames_get(fs: Seq<FrameV>, n: Seq<char>) -> Option<ValueV> {
    if fs.len() == 0 {
        None
    } else {
        lookup_binds(fs.last().binds, n)
    }
}

impl Stack {
    /// A stack with one frame holding the built-ins.
    pub fn new() -> (r: Stack)
        ensures
            r@ == seq![initial_frame()],
    {
        let f = Frame { bindings: builtins(), marks: Vec::new() };
        let ghost fv = frame_view(&f);
        let mut frames: Vec<Frame> = Vec::new();
        frames.push(f);
        let r = Stack { frames };
        proof {
            lemma_frames_view(r.frames@);
            assert(fv == initial_frame());
            assert(r@ =~= seq![initial_frame()]);
        }
        r
    }

    /// Pushes a fresh activation frame, pre-populated with the built-ins.
    pub fn push_frame(&mut self)
        ensures
            final(self)@ == old(self)@.push(initial_frame()),
    {
        let f = Frame { bindings: builtins(), marks: Vec::new() };
        let ghost fv = frame_view(&f);
        proof {
            lemma_frames_view(old(self).frames@);
        }
        self.frames.push(f);
        proof {
            lemma_frames_view(self.frames@);
            assert(fv == initial_frame());
            assert(frames_view(self.frames@) =~= frames_view(old(self).frames@).push(
                initial_frame(),
            ));
        }
    }

    /// Discards the active frame; without frames this does nothing.
    pub fn pop_frame(&mut self)
        ensures
            final(self)@ == if old(self)@.len() > 0 {
                old(self)@.drop_last()
            } else {
                old(self)@
            },
    {
        proof {
            lemma_frames_view(old(self).frames@);
        }
        let popped = self.frames.pop();
        proof {
            lemma_frames_view(self.frames@);
            if old(self).frames@.len() > 0 {
                assert(frames_view(self.frames@) =~= frames_view(old(self).frames@).drop_last());
            }
        }
    }

    /// Enters a lexical scope in the active frame.
    pub fn push(&mut self)
        ensures
            final(self)@ == on_active(old(self)@, fr_push(old(self)@.last())),
    {
        proof {
            lemma_frames_view(old(self).frames@);
        }
        let popped = self.frames.pop();
        match popped {
            None => {
                proof {
                    lemma_frames_view(self.frames@);
                }
            },
            Some(mut f) => {
                let ghost f0 = frame_view(&f);
                let m = f.bindings.len();
                f.marks.push(m);
                proof {
                    assert(frame_view(&f) == fr_push(f0)) by {
                        lemma_svpairs_view(f.bindings@);
                    }
                }
                self.frames.push(f);
                proof {
                    lemma_frames_view(self.frames@);
                    assert(frames_view(self.frames@) =~= old(self)@.drop_last().push(
                        fr_push(old(self)@.last()),
                    ));
                }
            },
        }
    }

    /// Leaves the current lexical scope of the active frame: every binding
    /// made since entering it is removed, restoring shadowed bindings.
    pub fn pop(&mut self)
        ensures
            final(self)@ == on_active(old(self)@, fr_pop(old(self)@.last())),
    {
        proof {
            lemma_frames_view(old(self).frames@);
        }
        let popped = self.frames.pop();
        match popped {
            None => {
                proof {
                    lemma_frames_view(self.frames@);
                }
            },
            Some(mut f) => {
                let ghost f0 = frame_view(&f);
                let mark = f.marks.pop();
                match mark {
                    None => {},
                    Some(m) => {
                        if m <= f.bindings.len() {
                            proof {
                                lemma_svpairs_take(f.bindings@, m as int);
                                lemma_svpairs_view(f.bindings@);
                            }
                            f.bindings.truncate(m);
                        } else {
                            proof {
                                lemma_svpairs_view(f.bindings@);
                            }
                        }
                    },
                }
                proof {
                    assert(frame_view(&f) == fr_pop(f0));
                }
                self.frames.push(f);
                proof {
                    lemma_frames_view(self.frames@);
                    assert(frames_view(self.frames@) =~= old(self)@.drop_last().push(
                        fr_pop(old(self)@.last()),
                    ));
                }
            },
        }
    }

    /// Binds `ident` to `val` in the active frame's current scope.
    pub fn add(&mut self, ident: String, val: Value)
        ensures
            final(self)@ == on_active(
                old(self)@,
                fr_add(old(self)@.last(), ident@, value_view(val)),
            ),
    {
        proof {
            lemma_frames_view(old(self).frames@);
        }
        let ghost name_v = ident@;
        let ghost val_v = value_view(val);
        let popped = self.frames.pop();
        match popped {
            None => {
                proof {
                    lemma_frames_view(self.frames@);
                }
            },
            Some(mut f) => {
                let ghost f0 = frame_view(&f);
                proof {
                    lemma_svpairs_push(f.bindings@, (ident, val));
                }
                f.bindings.push((ident, val));
                proof {
                    assert(frame_view(&f) == fr_add(f0, name_v, val_v));
                }
                self.frames.push(f);
                proof {
                    lemma_frames_view(self.frames@);
                    assert(frames_view(self.frames@) =~= old(self)@.drop_last().push(
                        fr_add(old(self)@.last(), name_v, val_v),
                    ));
                }
            },
        }
    }

    /// Rebinds `ident` in the active frame's current scope: replaces the
    /// binding made there, or adds one; bindings of enclosing scopes are
    /// shadowed, not overwritten.
    pub fn assign(&mut self, ident: String, val: Value)
        ensures
            final(self)@ == on_active(
                old(self)@,
                fr_assign(old(self)@.last(), ident@, value_view(val)),
            ),
    {
        proof {
            lemma_frames_view(old(self).frames@);
        }
        let ghost name_v = ident@;
        let ghost val_v = value_view(val);
        let popped = self.frames.pop();
        match popped {
            None => {
                proof {
                    lemma_frames_view(self.frames@);
                }
            },
            Some(mut f) => {
                let ghost f0 = frame_view(&f);
                let m = if f.marks.len() == 0 {
                    0
                } else {
                    f.marks[f.marks.len() - 1]
                };
                proof {
                    assert(m as int == cur_mark(f0));
                }
                assign_binds_x(&mut f.bindings, &ident, val, m);
                proof {
                    assert(frame_view(&f) == fr_assign(f0, name_v, val_v));
                }
                self.frames.push(f);
                proof {
                    lemma_frames_view(self.frames@);
                    assert(frames_view(self.frames@) =~= old(self)@.drop_last().push(
                        fr_assign(old(self)@.last(), name_v, val_v),
                    ));
                }
            },
        }
    }

    /// Sets the most recent binding for `ident` in the active frame, in
    /// whatever scope it lives, to `val`; binds it in the current scope
    /// when the name is absent.
    pub fn update(&mut self, ident: &String, val: Value)
        ensures
            final(self)@ == on_active(
                old(self)@,
                fr_update(old(self)@.last(), ident@, value_view(val)),
            ),
    {
        proof {
            lemma_frames_view(old(self).frames@);
        }
        let ghost name_v = ident@;
        let ghost val_v = value_view(val);
        let popped = self.frames.pop();
        match popped {
            None => {
                proof {
                    lemma_frames_view(self.frames@);
                }
            },
            Some(mut f) => {
                let ghost f0 = frame_view(&f);
                assign_binds_x(&mut f.bindings, ident, val, 0);
                proof {
                    assert(frame_view(&f) == fr_update(f0, name_v, val_v));
                }
                self.frames.push(f);
                proof {
                    lemma_frames_view(self.frames@);
                    assert(frames_view(self.frames@) =~= old(self)@.drop_last().push(
                        fr_update(old(self)@.last(), name_v, val_v),
                    ));
                }
            },
        }
    }

    /// The value bound to `ident` in the active frame, cloned; `None` when
    /// the name is not visible there.
    pub fn get(&self, ident: &String) -> (r: Option<Value>)
        ensures
            opt_value_view(r) == frames_get(self@, ident@),
    {
        proof {
            lemma_frames_view(self.frames@);
        }
        if self.frames.len() == 0 {
            None
        } else {
            let f = &self.frames[self.frames.len() - 1];
            let n = f.bindings.len();
            proof {
                assert(f.bindings@.take(n as int) =~= f.bindings@);
            }
            lookup_binds_x(&f.bindings, n, ident)
        }
    }

    /// Removes and returns the most recent binding for `ident` in the
    /// active frame.
    pub fn take(&mut self, ident: &String) -> (r: Option<Value>)
        ensures
            ({
                let fs = old(self)@;
                if fs.len() == 0 {
                    final(self)@ == fs && r is None
                } else {
                    let (bs2, v) = take_binds(fs.last().binds, ident@);
                    final(self)@ == fs.drop_last().push(
                        FrameV { binds: bs2, marks: fs.last().marks },
                    ) && opt_value_view(r) == v
                }
            }),
    {
        proof {
            lemma_frames_view(old(self).frames@);
        }
        let popped = self.frames.pop();
        match popped {
            None => {
                proof {
                    lemma_frames_view(self.frames@);
                }
                None
            },
            Some(mut f) => {
                let ghost f0 = frame_view(&f);
                let r = take_binds_x(&mut f.bindings, ident);
                self.frames.push(f);
                proof {
                    lemma_frames_view(self.frames@);
                    let (bs2, v) = take_binds(f0.binds, ident@);
                    assert(frames_view(self.frames@) =~= old(self)@.drop_last().push(
                        FrameV { binds: bs2, marks: f0.marks },
                    ));
                }
                r
            },
        }
    }
}

/// The most recent binding for `ident` among the first `k` bindings of
/// `bs`, cloned.
fn lookup_binds_x(bs: &Vec<(String, Value)>, k: usize, ident: &String) -> (r: Option<Value>)
    requires
        k <= bs@.len(),
    ensures
        opt_value_view(r) == lookup_binds(svpairs_view(bs@.take(k as int)), ident@),
    decreases k,
{
    proof {
        lemma_svpairs_view(bs@);
        lemma_svpairs_view(bs@.take(k as int));
        if k > 0 {
            assert(bs@.take(k as int).drop_last() =~= bs@.take(k as int - 1));
            lemma_svpairs_view(bs@.take(k as int - 1));
            assert(svpairs_view(bs@.take(k as int)).drop_last() =~= svpairs_view(
                bs@.take(k as int - 1),
            ));
        }
    }
    if k == 0 {
        None
    } else if bs[k - 1].0 == *ident {
        Some(bs[k - 1].1.deep_clone())
    } else {
        lookup_binds_x(bs, k - 1, ident)
    }
}

/// Rebinds `ident` among the bindings at positions `m` and later,
/// replacing the most recent one or appending.
fn assign_binds_x(bs: &mut Vec<(String, Value)>, ident: &String, val: Value, m: usize)
    ensures
        svpairs_view(final(bs)@) == assign_binds(
            svpairs_view(old(bs)@),
            ident@,
            value_view(val),
            m as int,
        ),
    decreases old(bs)@.len(),
{
    proof {
        lemma_svpairs_view(bs@);
    }
    if bs.len() == 0 || bs.len() <= m {
        let pair = (ident.clone(), val);
        proof {
            lemma_svpairs_push(bs@, pair);
        }
        bs.push(pair);
    } else {
        let last = bs.pop().unwrap();
        let ghost bs0 = old(bs)@;
        proof {
            lemma_svpairs_drop_last(bs0);
        }
        if last.0 == *ident {
            let pair = (ident.clone(), val);
            proof {
                lemma_svpairs_push(bs@, pair);
            }
            bs.push(pair);
        } else {
            assign_binds_x(bs, ident, val, m);
            let ghost cur = bs@;
            proof {
                lemma_svpairs_push(cur, last);
            }
            bs.push(last);
        }
    }
}

/// Removes and returns the most recent binding for `ident`.
fn take_binds_x(bs: &mut Vec<(String, Value)>, ident: &String) -> (r: Option<Value>)
    ensures
        ({
            let (bs2, v) = take_binds(svpairs_view(old(bs)@), ident@);
            svpairs_view(final(bs)@) == bs2 && opt_value_view(r) == v
        }),
    decreases old(bs)@.len(),
{
    proof {
        lemma_svpairs_view(bs@);
    }
    if bs.len() == 0 {
        None
    } else {
        let last = bs.pop().unwrap();
        let ghost bs0 = old(bs)@;
        proof {
            lemma_svpairs_drop_last(bs0);
        }
        if last.0 == *ident {
            Some(last.1)
        } else {
            let r = take_binds_x(bs, ident);
            let ghost cur = bs@;
            proof {
                lemma_svpairs_push(cur, last);
            }
            bs.push(last);
            r
        }
    }
}

impl View for Stack {
    type V = Seq<FrameV>;

    open spec fn view(&self) -> Seq<FrameV> {
        frames_view(self.frames@)
    }
}

} // verus!
