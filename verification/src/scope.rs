//! Nested variable scopes, keyed to control-flow blocks.

use vstd::prelude::*;
use crate::error::WofError;
use crate::value::{AbstractValue, Value};

verus! {

/// Model of one scope frame: the block that owns it and its bindings in
/// the order they were written, oldest first. The last binding for a name
/// is the one that counts.
#[verifier::ext_equal]
pub struct FrameModel {
    pub block: int,
    pub vars: Seq<(Seq<char>, AbstractValue)>,
}

/// The binding a frame gives a name: the latest write, if any.
pub open spec fn spec_frame_lookup(vars: Seq<(Seq<char>, AbstractValue)>, name: Seq<char>)
    -> Option<AbstractValue>
    decreases vars.len(),
{
    if vars.len() == 0 {
        None
    } else if vars.last().0 == name {
        Some(vars.last().1)
    } else {
        spec_frame_lookup(vars.drop_last(), name)
    }
}

/// The value a scope stack gives a name: frames are searched from the
/// innermost (last) outward.
pub open spec fn spec_scopes_lookup(frames: Seq<FrameModel>, name: Seq<char>)
    -> Option<AbstractValue>
    decreases frames.len(),
{
    if frames.len() == 0 {
        None
    } else {
        match spec_frame_lookup(frames.last().vars, name) {
            Some(v) => Some(v),
            None => spec_scopes_lookup(frames.drop_last(), name),
        }
    }
}

/// A frame's bindings after overwriting the latest write for `name`.
/// Meaningful only when the frame binds the name.
pub open spec fn spec_frame_set(
    vars: Seq<(Seq<char>, AbstractValue)>,
    name: Seq<char>,
    value: AbstractValue,
) -> Seq<(Seq<char>, AbstractValue)>
    decreases vars.len(),
{
    if vars.len() == 0 {
        vars
    } else if vars.last().0 == name {
        vars.update(vars.len() - 1, (name, value))
    } else {
        spec_frame_set(vars.drop_last(), name, value).push(vars.last())
    }
}

/// A scope stack after a set: the innermost frame that binds the name has
/// its latest write for the name overwritten; the others are untouched.
/// Meaningful only when some frame binds the name.
pub open spec fn spec_scopes_set(frames: Seq<FrameModel>, name: Seq<char>, value: AbstractValue)
    -> Seq<FrameModel>
    decreases frames.len(),
{
    if frames.len() == 0 {
        frames
    } else if spec_frame_lookup(frames.last().vars, name) is Some {
        frames.update(
            frames.len() - 1,
            FrameModel {
                block: frames.last().block,
                vars: spec_frame_set(frames.last().vars, name, value),
            },
        )
    } else {
        spec_scopes_set(frames.drop_last(), name, value).push(frames.last())
    }
}

/// The names a scope stack binds, outermost frame first, writes in order.
pub open spec fn spec_all_names(frames: Seq<FrameModel>) -> Seq<Seq<char>> {
    Seq::new(frames.len(), |i: int| frames[i].vars.map_values(
        |p: (Seq<char>, AbstractValue)| p.0,
    )).flatten()
}

/// One variable frame, owned by a block.
struct Frame {
    block: usize,
    vars: Vec<(String, Value)>,
}

impl View for Frame {
    type V = FrameModel;

    closed spec fn view(&self) -> FrameModel {
        FrameModel {
            block: self.block as int,
            vars: self.vars@.map_values(|p: (String, Value)| (p.0@, p.1@)),
        }
    }
}

/// The ordered stack of variable frames. A fresh scope stack holds one
/// root frame (owned by no block, identity zero) that is never popped;
/// frames above it come and go with the scope-creating blocks.
pub struct ScopeStack {
    frames: Vec<Frame>,
}

impl View for ScopeStack {
    type V = Seq<FrameModel>;

    closed spec fn view(&self) -> Seq<FrameModel> {
        self.frames@.map_values(|f: Frame| f@)
    }
}

impl ScopeStack {
    /// A scope stack holding only the root frame, with no bindings.
    pub fn new() -> (r: Self)
        ensures
            r@ =~~= seq![FrameModel { block: 0, vars: Seq::empty() }],
    {
        let mut frames: Vec<Frame> = Vec::new();
        frames.push(Frame { block: 0, vars: Vec::new() });
        let r = ScopeStack { frames };
        proof {
            assert(r@ =~~= seq![FrameModel { block: 0, vars: Seq::empty() }]);
        }
        r
    }

    /// How many frames are open, the root frame included.
    pub fn depth(&self) -> (r: usize)
        ensures
            r == self@.len(),
    {
        self.frames.len()
    }

    /// Open a fresh, empty frame for the given block.
    pub fn push(&mut self, block: usize)
        ensures
            final(self)@ == old(self)@.push(
                FrameModel { block: block as int, vars: Seq::empty() },
            ),
    {
        self.frames.push(Frame { block, vars: Vec::new() });
        proof {
            assert(final(self)@ =~~= old(self)@.push(
                FrameModel { block: block as int, vars: Seq::empty() },
            ));
        }
    }

    /// Close the innermost frame. The root frame stays: on a stack of one
    /// frame this does nothing.
    pub fn pop(&mut self)
        ensures
            final(self)@ == if old(self)@.len() > 1 {
                old(self)@.drop_last()
            } else {
                old(self)@
            },
    {
        if self.frames.len() > 1 {
            let _ = self.frames.pop();
            proof {
                assert(final(self)@ =~~= old(self)@.drop_last());
            }
        }
    }

    /// Write a binding into the innermost frame. A later write for the
    /// same name shadows an earlier one.
    pub fn define(&mut self, name: String, value: Value)
        requires
            old(self)@.len() > 0,
        ensures
            final(self)@ == old(self)@.update(
                old(self)@.len() - 1,
                FrameModel {
                    block: old(self)@.last().block,
                    vars: old(self)@.last().vars.push((name@, value@)),
                },
            ),
    {
        let ghost pair = (name@, value@);
        match self.frames.pop() {
            Some(mut frame) => {
                frame.vars.push((name, value));
                self.frames.push(frame);
                proof {
                    assert(final(self)@ =~~= old(self)@.update(
                        old(self)@.len() - 1,
                        FrameModel {
                            block: old(self)@.last().block,
                            vars: old(self)@.last().vars.push(pair),
                        },
                    ));
                }
            },
            None => {},
        }
    }

    /// Read the visible binding for a name, walking the frames from the
    /// innermost outward; an unbound name is an error.
    pub fn get_var(&self, name: &str) -> (r: Result<Value, WofError>)
        ensures
            match r {
                Ok(v) => spec_scopes_lookup(self@, name@) == Some(v@),
                Err(e) => e == WofError::UndefinedVariable
                    && spec_scopes_lookup(self@, name@) is None,
            },
    {
        let key = String::from_str(name);
        let mut fi = self.frames.len();
        while fi > 0
            invariant
                fi <= self@.len(),
                key@ == name@,
                forall|j: int| fi <= j < self@.len()
                    ==> spec_frame_lookup(self@[j].vars, name@) is None,
            decreases fi,
        {
            fi = fi - 1;
            match Self::frame_find(&self.frames[fi], &key) {
                Some(vi) => {
                    proof {
                        lemma_scopes_lookup_at(self@, name@, fi as int);
                    }
                    return Ok(self.frames[fi].vars[vi].1.clone());
                },
                None => {},
            }
        }
        proof {
            lemma_scopes_lookup_none(self@, name@);
        }
        Err(WofError::UndefinedVariable)
    }

    /// Overwrite the visible binding for a name, in the innermost frame
    /// that has one; an unbound name is an error and changes nothing.
    pub fn set_var(&mut self, name: &str, value: Value) -> (r: Result<(), WofError>)
        ensures
            match r {
                Ok(()) => spec_scopes_lookup(old(self)@, name@) is Some
                    && final(self)@ == spec_scopes_set(old(self)@, name@, value@),
                Err(e) => e == WofError::UndefinedVariable
                    && spec_scopes_lookup(old(self)@, name@) is None
                    && final(self)@ == old(self)@,
            },
    {
        let key = String::from_str(name);
        let mut fi = self.frames.len();
        while fi > 0
            invariant
                fi <= self@.len(),
                self@ == old(self)@,
                key@ == name@,
                forall|j: int| fi <= j < self@.len()
                    ==> spec_frame_lookup(self@[j].vars, name@) is None,
            decreases fi,
        {
            fi = fi - 1;
            let found = Self::frame_find(&self.frames[fi], &key);
            match found {
                Some(vi) => {
                    let ghost pre = self@;
                    let ghost old_block = pre[fi as int].block;
                    let ghost nm = name@;
                    let ghost vv = value@;
                    let ghost knm = key@;
                    let mut tmp = Frame { block: 0, vars: Vec::new() };
                    self.frames.set_and_swap(fi, &mut tmp);
                    tmp.vars.set(vi, (key, value));
                    self.frames.set_and_swap(fi, &mut tmp);
                    proof {
                        assert(knm == nm);
                        lemma_frame_set_at(pre[fi as int].vars, nm, vv, vi as int);
                        lemma_scopes_lookup_at(pre, nm, fi as int);
                        lemma_scopes_set_at(pre, nm, vv, fi as int);
                        assert(final(self)@ =~~= pre.update(
                            fi as int,
                            FrameModel {
                                block: old_block,
                                vars: pre[fi as int].vars.update(vi as int, (nm, vv)),
                            },
                        ));
                        assert(final(self)@ =~~= pre.update(
                            fi as int,
                            FrameModel {
                                block: old_block,
                                vars: spec_frame_set(pre[fi as int].vars, nm, vv),
                            },
                        ));
                    }
                    return Ok(());
                },
                None => {},
            }
        }
        proof {
            lemma_scopes_lookup_none(self@, name@);
        }
        Err(WofError::UndefinedVariable)
    }

    /// Whether a name has a visible binding in any frame.
    pub fn is_defined(&self, name: &str) -> (r: bool)
        ensures
            r == (spec_scopes_lookup(self@, name@) is Some),
    {
        match self.get_var(name) {
            Ok(_) => true,
            Err(_) => false,
        }
    }

    /// Every name the scope stack currently binds, outermost frame first,
    /// in the order the bindings were written.
    pub fn all_visible_names(&self) -> (r: Vec<String>)
        ensures
            r@.map_values(|s: String| s@) == spec_all_names(self@),
    {
        let ghost per_frame = Seq::new(self@.len(), |i: int| self@[i].vars.map_values(
            |p: (Seq<char>, AbstractValue)| p.0,
        ));
        let mut names: Vec<String> = Vec::new();
        let mut fi: usize = 0;
        proof {
            assert(per_frame.take(0) =~~= Seq::<Seq<Seq<char>>>::empty());
            assert(names@.map_values(|s: String| s@) =~~= per_frame.take(0).flatten());
        }
        while fi < self.frames.len()
            invariant
                fi <= self@.len(),
                per_frame == Seq::new(self@.len(), |i: int| self@[i].vars.map_values(
                    |p: (Seq<char>, AbstractValue)| p.0,
                )),
                names@.map_values(|s: String| s@) == per_frame.take(fi as int).flatten(),
            decreases self@.len() - fi,
        {
            let ghost before = names@;
            let frame = &self.frames[fi];
            let mut vi: usize = 0;
            while vi < frame.vars.len()
                invariant
                    fi < self@.len(),
                    frame@ == self@[fi as int],
                    vi <= self@[fi as int].vars.len(),
                    names@.map_values(|s: String| s@)
                        == before.map_values(|s: String| s@)
                            + self@[fi as int].vars.take(vi as int)
                                .map_values(|p: (Seq<char>, AbstractValue)| p.0),
                decreases self@[fi as int].vars.len() - vi,
            {
                let entry_name = frame.vars[vi].0.clone();
                let ghost c = entry_name@;
                let ghost prevmap = names@.map_values(|s: String| s@);
                names.push(entry_name);
                proof {
                    assert(c == self@[fi as int].vars[vi as int].0);
                    assert(names@.map_values(|s: String| s@) =~~= prevmap.push(c));
                    assert((before.map_values(|s: String| s@)
                        + self@[fi as int].vars.take(vi as int)
                            .map_values(|p: (Seq<char>, AbstractValue)| p.0)).push(c)
                        =~= before.map_values(|s: String| s@)
                            + self@[fi as int].vars.take(vi as int)
                                .map_values(|p: (Seq<char>, AbstractValue)| p.0)
                                .push(c));
                    assert(self@[fi as int].vars.take(vi as int + 1)
                        .map_values(|p: (Seq<char>, AbstractValue)| p.0)
                        =~~= self@[fi as int].vars.take(vi as int)
                            .map_values(|p: (Seq<char>, AbstractValue)| p.0)
                            .push(self@[fi as int].vars[vi as int].0));
                    assert(names@.map_values(|s: String| s@)
                        =~~= before.map_values(|s: String| s@)
                            + self@[fi as int].vars.take(vi as int)
                                .map_values(|p: (Seq<char>, AbstractValue)| p.0)
                                .push(c));
                    assert(names@.map_values(|s: String| s@)
                        =~~= before.map_values(|s: String| s@)
                            + self@[fi as int].vars.take(vi as int + 1)
                                .map_values(|p: (Seq<char>, AbstractValue)| p.0));
                }
                vi = vi + 1;
            }
            proof {
                assert(self@[fi as int].vars.take(self@[fi as int].vars.len() as int)
                    =~~= self@[fi as int].vars);
                per_frame.take(fi as int).lemma_flatten_push(per_frame[fi as int]);
                assert(per_frame.take(fi as int + 1)
                    =~~= per_frame.take(fi as int).push(per_frame[fi as int]));
                assert(names@.map_values(|s: String| s@)
                    =~~= per_frame.take(fi as int + 1).flatten());
            }
            fi = fi + 1;
        }
        proof {
            assert(per_frame.take(self@.len() as int) =~~= per_frame);
        }
        names
    }

    /// The index of the latest binding for `key` in a frame, if any.
    fn frame_find(frame: &Frame, key: &String) -> (r: Option<usize>)
        ensures
            match r {
                Some(vi) => vi < frame@.vars.len()
                    && frame@.vars[vi as int].0 == key@
                    && spec_frame_lookup(frame@.vars, key@)
                        == Some(frame@.vars[vi as int].1)
                    && (forall|j: int| vi < j < frame@.vars.len()
                        ==> frame@.vars[j].0 != key@),
                None => spec_frame_lookup(frame@.vars, key@) is None,
            },
    {
        let mut vi = frame.vars.len();
        while vi > 0
            invariant
                vi <= frame@.vars.len(),
                forall|j: int| vi <= j < frame@.vars.len() ==> frame@.vars[j].0 != key@,
            decreases vi,
        {
            vi = vi - 1;
            if frame.vars[vi].0 == *key {
                proof {
                    lemma_frame_lookup_at(frame@.vars, key@, vi as int);
                }
                return Some(vi);
            }
        }
        proof {
            lemma_frame_lookup_none(frame@.vars, key@);
        }
        None
    }
}

/// A frame lookup resolves at index `vi` when that entry has the name and
/// no later entry does.
proof fn lemma_frame_lookup_at(vars: Seq<(Seq<char>, AbstractValue)>, name: Seq<char>, vi: int)
    requires
        0 <= vi < vars.len(),
        vars[vi].0 == name,
        forall|j: int| vi < j < vars.len() ==> vars[j].0 != name,
    ensures
        spec_frame_lookup(vars, name) == Some(vars[vi].1),
    decreases vars.len(),
{
    if vi < vars.len() - 1 {
        lemma_frame_lookup_at(vars.drop_last(), name, vi);
    }
}

/// A frame with no entry for the name has no binding for it.
proof fn lemma_frame_lookup_none(vars: Seq<(Seq<char>, AbstractValue)>, name: Seq<char>)
    requires
        forall|j: int| 0 <= j < vars.len() ==> vars[j].0 != name,
    ensures
        spec_frame_lookup(vars, name) is None,
    decreases vars.len(),
{
    if vars.len() > 0 {
        lemma_frame_lookup_none(vars.drop_last(), name);
    }
}

/// A lookup resolves in frame `fi` when that frame binds the name and no
/// frame further in does.
proof fn lemma_scopes_lookup_at(frames: Seq<FrameModel>, name: Seq<char>, fi: int)
    requires
        0 <= fi < frames.len(),
        spec_frame_lookup(frames[fi].vars, name) is Some,
        forall|j: int| fi < j < frames.len() ==> spec_frame_lookup(frames[j].vars, name) is None,
    ensures
        spec_scopes_lookup(frames, name) == spec_frame_lookup(frames[fi].vars, name),
    decreases frames.len(),
{
    if fi < frames.len() - 1 {
        lemma_scopes_lookup_at(frames.drop_last(), name, fi);
    }
}

/// When no frame binds the name, the whole lookup misses.
proof fn lemma_scopes_lookup_none(frames: Seq<FrameModel>, name: Seq<char>)
    requires
        forall|j: int| 0 <= j < frames.len() ==> spec_frame_lookup(frames[j].vars, name) is None,
    ensures
        spec_scopes_lookup(frames, name) is None,
    decreases frames.len(),
{
    if frames.len() > 0 {
        lemma_scopes_lookup_none(frames.drop_last(), name);
    }
}

/// Overwriting the latest binding for a name in place is what
/// [`spec_frame_set`] describes, when everything above that binding has
/// another name.
proof fn lemma_frame_set_at(
    vars: Seq<(Seq<char>, AbstractValue)>,
    name: Seq<char>,
    value: AbstractValue,
    vi: int,
)
    requires
        0 <= vi < vars.len(),
        vars[vi].0 == name,
        forall|j: int| vi < j < vars.len() ==> vars[j].0 != name,
    ensures
        spec_frame_set(vars, name, value) == vars.update(vi, (name, value)),
    decreases vars.len(),
{
    if vi == vars.len() - 1 {
        assert(spec_frame_set(vars, name, value) =~= vars.update(vi, (name, value)));
    } else {
        lemma_frame_set_at(vars.drop_last(), name, value, vi);
        assert(vars.drop_last().update(vi, (name, value)).push(vars.last())
            =~= vars.update(vi, (name, value)));
    }
}

/// Setting a name bound in frame `fi`, with no binding for it in any
/// frame further in, updates exactly frame `fi`.
proof fn lemma_scopes_set_at(
    frames: Seq<FrameModel>,
    name: Seq<char>,
    value: AbstractValue,
    fi: int,
)
    requires
        0 <= fi < frames.len(),
        spec_frame_lookup(frames[fi].vars, name) is Some,
        forall|j: int| fi < j < frames.len() ==> spec_frame_lookup(frames[j].vars, name) is None,
    ensures
        spec_scopes_set(frames, name, value) == frames.update(
            fi,
            FrameModel {
                block: frames[fi].block,
                vars: spec_frame_set(frames[fi].vars, name, value),
            },
        ),
    decreases frames.len(),
{
    let target = FrameModel {
        block: frames[fi].block,
        vars: spec_frame_set(frames[fi].vars, name, value),
    };
    if fi == frames.len() - 1 {
        assert(spec_scopes_set(frames, name, value) =~= frames.update(fi, target));
    } else {
        lemma_scopes_set_at(frames.drop_last(), name, value, fi);
        assert(frames.drop_last().update(fi, target).push(frames.last())
            =~= frames.update(fi, target));
    }
}

} // verus!
