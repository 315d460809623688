//! The interpreter: execution state and the token dispatch engine.
//!
//! A conditional opens its block whether or not its branch is taken, and
//! the close that ends a skipped region closes that block. Skipping is
//! otherwise pure token discard, so every scope-creating open is paired
//! with exactly one close, whichever branch runs.

use vstd::prelude::*;
use std::collections::VecDeque;
use crate::block::{BlockModel, BlockRegistry, BlockStack, BlockType, Span, spec_creates_scope};
use crate::error::WofError;
use crate::registry::{Op, Registry, spec_reg_lookup};
use crate::scope::{FrameModel, ScopeStack, spec_scopes_lookup, spec_scopes_set};
use crate::stack::{WofStack, spec_numeric};
use crate::token::{
    OwnedToken, TokenKind, TokenModel, is_float_text, is_int_text, labelref_symbol_text,
    lemma_tokenize_wf, parse_float_text, parse_int_text, parse_string_literal, spec_decode_string,
    spec_float_nanos, spec_float_whole, spec_int_value, spec_labelref_text, spec_tokenize,
    token_wf, tokenize,
};
use crate::value::{AbstractValue, Value, spec_truthy};

verus! {

/// Model of the whole interpreter state, apart from the token buffer.
#[verifier::ext_equal]
pub struct Model {
    /// The data stack, bottom first.
    pub stack: Seq<AbstractValue>,
    /// The return stack, bottom first.
    pub rstack: Seq<int>,
    /// The operation registry's registration history.
    pub registry: Seq<(Seq<char>, Op)>,
    /// The variable frames, outermost first.
    pub scopes: Seq<FrameModel>,
    /// Every block ever opened, by identity.
    pub blocks: Seq<BlockModel>,
    /// The identities of the currently open blocks, outermost first.
    pub bstack: Seq<int>,
    /// The instruction position blocks are recorded against.
    pub ip: int,
    /// How many skipped block levels dispatch is inside; zero runs tokens.
    pub skip: int,
}

impl Model {
    /// The state is sound: the root variable frame is always there.
    pub open spec fn wf(self) -> bool {
        self.scopes.len() >= 1
    }
}

/// What one dispatch step did: the state after it, the error if it
/// failed, and whether it consumed the lookahead token.
#[verifier::ext_equal]
pub struct StepOut {
    pub m: Model,
    pub err: Option<WofError>,
    pub used_next: bool,
}

/// What running a token sequence did.
#[verifier::ext_equal]
pub struct RunOut {
    pub m: Model,
    pub err: Option<WofError>,
}

/// The variable-load keyword and its aliases.
pub open spec fn is_load_kw(t: Seq<char>) -> bool {
    t == seq!['読'] || t == "load"@ || t == "get"@
}

/// The variable-define keyword and its aliases.
pub open spec fn is_define_kw(t: Seq<char>) -> bool {
    t == seq!['字'] || t == "define"@ || t == "let"@
}

/// The variable-set keyword and its aliases.
pub open spec fn is_set_kw(t: Seq<char>) -> bool {
    t == seq!['支'] || t == "set"@ || t == "store"@
}

/// The conditional keyword and its alias.
pub open spec fn is_if_kw(t: Seq<char>) -> bool {
    t == seq!['若'] || t == "if"@
}

/// The else keyword and its alias.
pub open spec fn is_else_kw(t: Seq<char>) -> bool {
    t == seq!['或'] || t == "else"@
}

/// The block-open keyword.
pub open spec fn is_open_kw(t: Seq<char>) -> bool {
    t == seq!['⺆']
}

/// The block-close keyword.
pub open spec fn is_close_kw(t: Seq<char>) -> bool {
    t == seq!['⺘']
}

/// The loop keywords, reserved block openers in skip mode.
pub open spec fn is_loop_kw(t: Seq<char>) -> bool {
    t == "loop"@ || t == seq!['⟳']
}

/// The texts that open a nested block while skipping.
pub open spec fn skip_opens(t: Seq<char>) -> bool {
    is_open_kw(t) || is_if_kw(t) || is_loop_kw(t)
}

/// Whether a symbol text is any dispatch keyword.
pub open spec fn is_keyword(t: Seq<char>) -> bool {
    is_load_kw(t) || is_define_kw(t) || is_set_kw(t) || is_if_kw(t) || is_else_kw(t)
        || is_open_kw(t) || is_close_kw(t)
}

/// Opening a block: record it, stack it, and open its scope frame.
pub open spec fn spec_push_scope(m: Model, bt: BlockType) -> Model {
    let id = m.blocks.len() as int;
    let parent = if m.bstack.len() > 0 {
        Some(m.bstack.last())
    } else {
        None
    };
    Model {
        blocks: m.blocks.push(BlockModel {
            block_type: bt,
            open_pos: m.ip,
            parent,
            span: Span { start: 0, end: 0 },
            close_pos: None,
        }),
        bstack: m.bstack.push(id),
        scopes: if spec_creates_scope(bt) {
            m.scopes.push(FrameModel { block: id, vars: Seq::empty() })
        } else {
            m.scopes
        },
        ..m
    }
}

/// Closing a block: unstack it, close its scope frame if its type has
/// one, and record where it closed. With no open block, nothing happens.
pub open spec fn spec_pop_scope(m: Model) -> Model {
    if m.bstack.len() == 0 {
        m
    } else {
        let id = m.bstack.last();
        if 0 <= id < m.blocks.len() {
            Model {
                bstack: m.bstack.drop_last(),
                scopes: if spec_creates_scope(m.blocks[id].block_type) && m.scopes.len() > 1 {
                    m.scopes.drop_last()
                } else {
                    m.scopes
                },
                blocks: m.blocks.update(id, BlockModel {
                    close_pos: Some(m.ip),
                    ..m.blocks[id]
                }),
                ..m
            }
        } else {
            Model { bstack: m.bstack.drop_last(), ..m }
        }
    }
}

/// Two numeric counts added, clamped to the representable range.
pub open spec fn sat_add(a: int, b: int) -> int {
    if a + b > i128::MAX {
        i128::MAX as int
    } else if a + b < i128::MIN {
        i128::MIN as int
    } else {
        a + b
    }
}

/// What a registered operation does to the stack, and how it can fail.
/// A failed numeric pop leaves the value it looked at in place, so a
/// failure in the second pop of a two-value operation has consumed one.
pub open spec fn spec_apply_op(stack: Seq<AbstractValue>, op: Op)
    -> (Seq<AbstractValue>, Option<WofError>)
{
    match op {
        Op::Add | Op::Sub => {
            if stack.len() == 0 {
                (stack, Some(WofError::StackUnderflow))
            } else if spec_numeric(stack.last()) is None {
                (stack, Some(WofError::TypeMismatch))
            } else {
                let b = spec_numeric(stack.last()).unwrap();
                let s1 = stack.drop_last();
                if s1.len() == 0 {
                    (s1, Some(WofError::StackUnderflow))
                } else if spec_numeric(s1.last()) is None {
                    (s1, Some(WofError::TypeMismatch))
                } else {
                    let a = spec_numeric(s1.last()).unwrap();
                    let v = if op == Op::Add {
                        sat_add(a, b)
                    } else {
                        sat_add(a, -b)
                    };
                    (s1.drop_last().push(AbstractValue::Dbl(v)), None)
                }
            }
        },
        Op::Dup => {
            if stack.len() == 0 {
                (stack, Some(WofError::StackUnderflow))
            } else {
                (stack.push(stack.last()), None)
            }
        },
        Op::Drop => {
            if stack.len() == 0 {
                (stack, Some(WofError::StackUnderflow))
            } else {
                (stack.drop_last(), None)
            }
        },
        Op::Swap => {
            if stack.len() < 2 {
                (stack, Some(WofError::StackUnderflow))
            } else {
                (
                    stack.update(stack.len() - 2, stack.last())
                        .update(stack.len() - 1, stack[stack.len() - 2]),
                    None,
                )
            }
        },
    }
}

/// One dispatch step on a symbol token in normal mode: the special
/// variable forms, the control-flow keywords, then registry lookup,
/// auto-load, and the bare-symbol push.
pub open spec fn spec_dispatch_symbol(m: Model, name: Seq<char>, next: Option<TokenModel>)
    -> StepOut
{
    if is_load_kw(name) {
        match next {
            Some(nt) => {
                if nt.kind == TokenKind::Symbol {
                    match spec_scopes_lookup(m.scopes, nt.text) {
                        Some(v) => StepOut {
                            m: Model { stack: m.stack.push(v), ..m },
                            err: None,
                            used_next: true,
                        },
                        None => StepOut {
                            m,
                            err: Some(WofError::UndefinedVariable),
                            used_next: true,
                        },
                    }
                } else {
                    StepOut { m, err: Some(WofError::Usage), used_next: false }
                }
            },
            None => StepOut { m, err: Some(WofError::Usage), used_next: false },
        }
    } else if is_define_kw(name) {
        match next {
            Some(nt) => {
                if nt.kind == TokenKind::Symbol {
                    if m.stack.len() == 0 {
                        StepOut { m, err: Some(WofError::StackUnderflow), used_next: true }
                    } else {
                        StepOut {
                            m: Model {
                                stack: m.stack.drop_last(),
                                scopes: m.scopes.update(
                                    m.scopes.len() - 1,
                                    FrameModel {
                                        block: m.scopes.last().block,
                                        vars: m.scopes.last().vars.push((nt.text, m.stack.last())),
                                    },
                                ),
                                ..m
                            },
                            err: None,
                            used_next: true,
                        }
                    }
                } else {
                    StepOut { m, err: Some(WofError::Usage), used_next: false }
                }
            },
            None => StepOut { m, err: Some(WofError::Usage), used_next: false },
        }
    } else if is_set_kw(name) {
        match next {
            Some(nt) => {
                if nt.kind == TokenKind::Symbol {
                    if m.stack.len() == 0 {
                        StepOut { m, err: Some(WofError::StackUnderflow), used_next: true }
                    } else {
                        let popped = Model { stack: m.stack.drop_last(), ..m };
                        match spec_scopes_lookup(m.scopes, nt.text) {
                            Some(_) => StepOut {
                                m: Model {
                                    scopes: spec_scopes_set(m.scopes, nt.text, m.stack.last()),
                                    ..popped
                                },
                                err: None,
                                used_next: true,
                            },
                            None => StepOut {
                                m: popped,
                                err: Some(WofError::UndefinedVariable),
                                used_next: true,
                            },
                        }
                    }
                } else {
                    StepOut { m, err: Some(WofError::Usage), used_next: false }
                }
            },
            None => StepOut { m, err: Some(WofError::Usage), used_next: false },
        }
    } else if is_if_kw(name) {
        if m.stack.len() == 0 {
            StepOut { m, err: Some(WofError::StackUnderflow), used_next: false }
        } else {
            let cond = m.stack.last();
            let opened = spec_push_scope(Model { stack: m.stack.drop_last(), ..m }, BlockType::If);
            if spec_truthy(cond) {
                StepOut { m: opened, err: None, used_next: false }
            } else {
                StepOut { m: Model { skip: 1, ..opened }, err: None, used_next: false }
            }
        }
    } else if is_else_kw(name) {
        StepOut { m: Model { skip: 1, ..m }, err: None, used_next: false }
    } else if is_open_kw(name) {
        StepOut { m: spec_push_scope(m, BlockType::Generic), err: None, used_next: false }
    } else if is_close_kw(name) {
        StepOut { m: spec_pop_scope(m), err: None, used_next: false }
    } else {
        match spec_reg_lookup(m.registry, name) {
            Some(op) => {
                let r = spec_apply_op(m.stack, op);
                StepOut { m: Model { stack: r.0, ..m }, err: r.1, used_next: false }
            },
            None => match spec_scopes_lookup(m.scopes, name) {
                Some(v) => StepOut {
                    m: Model { stack: m.stack.push(v), ..m },
                    err: None,
                    used_next: false,
                },
                None => StepOut {
                    m: Model { stack: m.stack.push(AbstractValue::Sym(name)), ..m },
                    err: None,
                    used_next: false,
                },
            },
        }
    }
}

/// One dispatch step in skip mode: only the block-structural texts act,
/// everything else is discarded. The close that ends the skipped region
/// also closes the block the conditional opened.
pub open spec fn spec_skip_step(m: Model, t: TokenModel) -> Model {
    if skip_opens(t.text) {
        if m.skip < usize::MAX {
            Model { skip: m.skip + 1, ..m }
        } else {
            m
        }
    } else if is_close_kw(t.text) {
        if m.skip == 1 {
            spec_pop_scope(Model { skip: 0, ..m })
        } else {
            Model { skip: m.skip - 1, ..m }
        }
    } else if is_else_kw(t.text) && m.skip == 1 {
        Model { skip: 0, ..m }
    } else {
        m
    }
}

/// One dispatch step: skip mode first, then the literal pushes, then
/// symbol dispatch.
pub open spec fn spec_step(m: Model, t: TokenModel, next: Option<TokenModel>) -> StepOut {
    if m.skip > 0 {
        StepOut { m: spec_skip_step(m, t), err: None, used_next: false }
    } else {
        match t.kind {
            TokenKind::Integer => {
                let v = spec_int_value(t.text);
                if i64::MIN <= v <= i64::MAX {
                    StepOut {
                        m: Model { stack: m.stack.push(AbstractValue::Int(v)), ..m },
                        err: None,
                        used_next: false,
                    }
                } else {
                    StepOut { m, err: Some(WofError::Parse), used_next: false }
                }
            },
            TokenKind::Float => {
                if spec_float_whole(t.text) <= i64::MAX {
                    StepOut {
                        m: Model {
                            stack: m.stack.push(AbstractValue::Dbl(spec_float_nanos(t.text))),
                            ..m
                        },
                        err: None,
                        used_next: false,
                    }
                } else {
                    StepOut { m, err: Some(WofError::Parse), used_next: false }
                }
            },
            TokenKind::Str => StepOut {
                m: Model {
                    stack: m.stack.push(AbstractValue::Str(spec_decode_string(t.text))),
                    ..m
                },
                err: None,
                used_next: false,
            },
            TokenKind::Symbol => spec_dispatch_symbol(m, t.text, next),
            TokenKind::Label => StepOut { m, err: None, used_next: false },
            TokenKind::LabelRef => StepOut {
                m: Model {
                    stack: m.stack.push(AbstractValue::Sym(spec_labelref_text(t.text))),
                    ..m
                },
                err: None,
                used_next: false,
            },
            TokenKind::Eof => StepOut { m, err: None, used_next: false },
        }
    }
}

/// Running a token sequence: dispatch tokens front to back until the
/// sequence is exhausted or a step fails; the first failure stops the
/// run with the state it left behind.
pub open spec fn spec_run(m: Model, toks: Seq<TokenModel>) -> RunOut
    decreases toks.len(),
{
    if toks.len() == 0 {
        RunOut { m, err: None }
    } else {
        let so = spec_step(
            m,
            toks[0],
            if toks.len() > 1 {
                Some(toks[1])
            } else {
                None
            },
        );
        if so.err is Some {
            RunOut { m: so.m, err: so.err }
        } else if so.used_next && toks.len() >= 2 {
            spec_run(so.m, toks.skip(2))
        } else {
            spec_run(so.m, toks.skip(1))
        }
    }
}

/// The Woflang interpreter: the data stack, the variable scopes, the
/// block records, the operation registry and the dispatch engine.
pub struct Interpreter {
    stack: WofStack,
    return_stack: Vec<usize>,
    registry: Registry,
    scopes: ScopeStack,
    blocks: BlockRegistry,
    block_stack: BlockStack,
    token_buffer: VecDeque<OwnedToken>,
    ip: usize,
    skip_depth: usize,
}

impl View for Interpreter {
    type V = Model;

    closed spec fn view(&self) -> Model {
        Model {
            stack: self.stack@,
            rstack: self.return_stack@.map_values(|a: usize| a as int),
            registry: self.registry@,
            scopes: self.scopes@,
            blocks: self.blocks@,
            bstack: self.block_stack@,
            ip: self.ip as int,
            skip: self.skip_depth as int,
        }
    }
}

impl Interpreter {
    /// The buffered tokens still waiting for dispatch.
    pub closed spec fn buf(&self) -> Seq<TokenModel> {
        self.token_buffer@.map_values(|t: OwnedToken| t@)
    }

    /// The model of a freshly made interpreter with the given registry.
    pub open spec fn initial_model(reg: Seq<(Seq<char>, Op)>) -> Model {
        Model {
            stack: Seq::empty(),
            rstack: Seq::empty(),
            registry: reg,
            scopes: seq![FrameModel { block: 0, vars: Seq::empty() }],
            blocks: Seq::empty(),
            bstack: Seq::empty(),
            ip: 0,
            skip: 0,
        }
    }

    /// A new interpreter with an empty registry.
    pub fn new() -> (r: Self)
        ensures
            r@ == Self::initial_model(Seq::empty()),
            r.buf() == Seq::<TokenModel>::empty(),
    {
        Self::with_registry(Registry::new())
    }

    /// A new interpreter with a pre-configured registry.
    pub fn with_registry(registry: Registry) -> (r: Self)
        ensures
            r@ == Self::initial_model(registry@),
            r.buf() == Seq::<TokenModel>::empty(),
    {
        let r = Interpreter {
            stack: WofStack::with_capacity(64),
            return_stack: Vec::with_capacity(16),
            registry,
            scopes: ScopeStack::new(),
            blocks: BlockRegistry::new(),
            block_stack: BlockStack::new(),
            token_buffer: VecDeque::new(),
            ip: 0,
            skip_depth: 0,
        };
        proof {
            assert(r@ =~~= Self::initial_model(r.registry@));
            assert(r.buf() =~~= Seq::<TokenModel>::empty());
        }
        r
    }

    /// The operation registry.
    pub fn registry(&self) -> (r: &Registry)
        ensures
            r@ == self@.registry,
    {
        &self.registry
    }

    /// Exclusive access to the operation registry.
    pub fn registry_mut(&mut self) -> (r: &mut Registry)
        ensures
            (*r)@ == old(self)@.registry,
            final(self)@ == (Model { registry: final(r)@, ..old(self)@ }),
            final(self).buf() == old(self).buf(),
    {
        &mut self.registry
    }

    /// Bind a name to an operation; a later registration wins.
    pub fn register(&mut self, name: &str, op: Op)
        ensures
            final(self)@ == (Model { registry: old(self)@.registry.push((name@, op)), ..old(self)@ }),
            final(self).buf() == old(self).buf(),
    {
        self.registry.register(name, op);
        proof {
            assert(final(self)@ =~~= (Model {
                registry: old(self)@.registry.push((name@, op)),
                ..old(self)@
            }));
        }
    }

    /// The variable scopes.
    pub fn scopes(&self) -> (r: &ScopeStack)
        ensures
            r@ == self@.scopes,
    {
        &self.scopes
    }

    /// Exclusive access to the variable scopes.
    pub fn scopes_mut(&mut self) -> (r: &mut ScopeStack)
        ensures
            (*r)@ == old(self)@.scopes,
            final(self)@ == (Model { scopes: final(r)@, ..old(self)@ }),
            final(self).buf() == old(self).buf(),
    {
        &mut self.scopes
    }

    /// The data stack.
    pub fn stack(&self) -> (r: &WofStack)
        ensures
            r@ == self@.stack,
    {
        &self.stack
    }

    /// Exclusive access to the data stack.
    pub fn stack_mut(&mut self) -> (r: &mut WofStack)
        ensures
            (*r)@ == old(self)@.stack,
            final(self)@ == (Model { stack: final(r)@, ..old(self)@ }),
            final(self).buf() == old(self).buf(),
    {
        &mut self.stack
    }

    /// Put a value on the data stack.
    pub fn push(&mut self, value: Value)
        ensures
            final(self)@ == (Model { stack: old(self)@.stack.push(value@), ..old(self)@ }),
            final(self).buf() == old(self).buf(),
    {
        self.stack.push(value);
        proof {
            assert(final(self)@ =~~= (Model {
                stack: old(self)@.stack.push(value@),
                ..old(self)@
            }));
        }
    }

    /// Take the top value off the data stack; an empty stack underflows.
    pub fn pop(&mut self) -> (r: Result<Value, WofError>)
        ensures
            final(self).buf() == old(self).buf(),
            match r {
                Ok(v) => old(self)@.stack.len() > 0 && v@ == old(self)@.stack.last()
                    && final(self)@ == (Model {
                        stack: old(self)@.stack.drop_last(),
                        ..old(self)@
                    }),
                Err(e) => e == WofError::StackUnderflow && old(self)@.stack.len() == 0
                    && final(self)@ == old(self)@,
            },
    {
        let r = self.stack.pop();
        proof {
            assert(final(self)@ =~~= (Model { stack: self.stack@, ..old(self)@ }));
        }
        r
    }

    /// Look at the top of the data stack.
    pub fn peek(&self) -> (r: Result<&Value, WofError>)
        ensures
            match r {
                Ok(v) => self@.stack.len() > 0 && v@ == self@.stack.last(),
                Err(e) => e == WofError::StackUnderflow && self@.stack.len() == 0,
            },
    {
        self.stack.peek()
    }

    /// Whether the data stack holds at least `n` values.
    pub fn has(&self, n: usize) -> (r: bool)
        ensures
            r == (self@.stack.len() >= n),
    {
        self.stack.has(n)
    }

    /// Remove every value from the data stack.
    pub fn clear(&mut self)
        ensures
            final(self)@ == (Model { stack: Seq::empty(), ..old(self)@ }),
            final(self).buf() == old(self).buf(),
    {
        self.stack.clear();
        proof {
            assert(final(self)@ =~~= (Model { stack: Seq::empty(), ..old(self)@ }));
        }
    }

    /// Define a variable in the innermost scope.
    pub fn define_var(&mut self, name: &str, value: Value)
        requires
            old(self)@.wf(),
        ensures
            final(self)@ == (Model {
                scopes: old(self)@.scopes.update(
                    old(self)@.scopes.len() - 1,
                    FrameModel {
                        block: old(self)@.scopes.last().block,
                        vars: old(self)@.scopes.last().vars.push((name@, value@)),
                    },
                ),
                ..old(self)@
            }),
            final(self).buf() == old(self).buf(),
    {
        self.scopes.define(String::from_str(name), value);
        proof {
            assert(final(self)@ =~~= (Model { scopes: self.scopes@, ..old(self)@ }));
        }
    }

    /// Read a variable's visible value.
    pub fn get_var(&self, name: &str) -> (r: Result<Value, WofError>)
        ensures
            match r {
                Ok(v) => spec_scopes_lookup(self@.scopes, name@) == Some(v@),
                Err(e) => e == WofError::UndefinedVariable
                    && spec_scopes_lookup(self@.scopes, name@) is None,
            },
    {
        self.scopes.get_var(name)
    }

    /// Overwrite an existing variable's value.
    pub fn set_var(&mut self, name: &str, value: Value) -> (r: Result<(), WofError>)
        ensures
            final(self).buf() == old(self).buf(),
            match r {
                Ok(()) => spec_scopes_lookup(old(self)@.scopes, name@) is Some
                    && final(self)@ == (Model {
                        scopes: spec_scopes_set(old(self)@.scopes, name@, value@),
                        ..old(self)@
                    }),
                Err(e) => e == WofError::UndefinedVariable
                    && spec_scopes_lookup(old(self)@.scopes, name@) is None
                    && final(self)@ == old(self)@,
            },
    {
        let r = self.scopes.set_var(name, value);
        proof {
            assert(final(self)@ =~~= (Model { scopes: self.scopes@, ..old(self)@ }));
        }
        r
    }

    /// Whether a variable is visible.
    pub fn has_var(&self, name: &str) -> (r: bool)
        ensures
            r == (spec_scopes_lookup(self@.scopes, name@) is Some),
    {
        self.scopes.is_defined(name)
    }

    /// Open a block of the given type and hand back its identity.
    pub fn push_scope(&mut self, block_type: BlockType) -> (r: usize)
        ensures
            r as int == old(self)@.blocks.len(),
            final(self)@ == spec_push_scope(old(self)@, block_type),
            final(self).buf() == old(self).buf(),
    {
        let parent = self.block_stack.current();
        let id = self.blocks.register(block_type, self.ip, parent, Span::synthetic());
        self.block_stack.push(id);
        if block_type.creates_scope() {
            self.scopes.push(id);
        }
        proof {
            assert(final(self)@ =~~= spec_push_scope(old(self)@, block_type));
        }
        id
    }

    /// Close the innermost open block, with its scope frame if it has
    /// one. With no open block this does nothing.
    pub fn pop_scope(&mut self)
        ensures
            final(self)@ == spec_pop_scope(old(self)@),
            final(self).buf() == old(self).buf(),
    {
        match self.block_stack.pop() {
            Some(id) => {
                let creates = match self.blocks.get(id) {
                    Some(b) => b.block_type.creates_scope(),
                    None => false,
                };
                if creates {
                    self.scopes.pop();
                }
                self.blocks.close(id, self.ip);
                proof {
                    assert(final(self)@ =~~= spec_pop_scope(old(self)@));
                }
            },
            None => {
                proof {
                    assert(final(self)@ =~~= spec_pop_scope(old(self)@));
                }
            },
        }
    }

    /// How many blocks are open.
    pub fn block_depth(&self) -> (r: usize)
        ensures
            r == self@.bstack.len(),
    {
        self.block_stack.depth()
    }

    /// Push a return address for a call.
    pub fn push_return(&mut self, addr: usize)
        ensures
            final(self)@ == (Model { rstack: old(self)@.rstack.push(addr as int), ..old(self)@ }),
            final(self).buf() == old(self).buf(),
    {
        self.return_stack.push(addr);
        proof {
            assert(final(self)@ =~~= (Model {
                rstack: old(self)@.rstack.push(addr as int),
                ..old(self)@
            }));
        }
    }

    /// Pop the most recent return address, if any.
    pub fn pop_return(&mut self) -> (r: Option<usize>)
        ensures
            final(self).buf() == old(self).buf(),
            match r {
                Some(a) => old(self)@.rstack.len() > 0 && a as int == old(self)@.rstack.last()
                    && final(self)@ == (Model {
                        rstack: old(self)@.rstack.drop_last(),
                        ..old(self)@
                    }),
                None => old(self)@.rstack.len() == 0 && final(self)@ == old(self)@,
            },
    {
        let r = self.return_stack.pop();
        proof {
            if r is Some {
                assert(final(self)@ =~~= (Model {
                    rstack: old(self)@.rstack.drop_last(),
                    ..old(self)@
                }));
            } else {
                assert(final(self)@ =~~= old(self)@);
            }
        }
        r
    }

    /// Run a registered operation against the data stack.
    fn apply_op(&mut self, op: Op) -> (r: Result<(), WofError>)
        ensures
            final(self)@ == (Model { stack: spec_apply_op(old(self)@.stack, op).0, ..old(self)@ }),
            final(self).buf() == old(self).buf(),
            match r {
                Ok(()) => spec_apply_op(old(self)@.stack, op).1 is None,
                Err(e) => spec_apply_op(old(self)@.stack, op).1 == Some(e),
            },
    {
        let r = match op {
            Op::Add | Op::Sub => {
                match self.stack.pop_numeric() {
                    Ok(b) => match self.stack.pop_numeric() {
                        Ok(a) => {
                            let v: i128 = if op == Op::Add {
                                match a.checked_add(b) {
                                    Some(v) => v,
                                    None => if b > 0 { i128::MAX } else { i128::MIN },
                                }
                            } else {
                                match a.checked_sub(b) {
                                    Some(v) => v,
                                    None => if b < 0 { i128::MAX } else { i128::MIN },
                                }
                            };
                            self.stack.push(Value::Double(v));
                            Ok(())
                        },
                        Err(e) => Err(e),
                    },
                    Err(e) => Err(e),
                }
            },
            Op::Dup => self.stack.dup(),
            Op::Drop => self.stack.drop_top(),
            Op::Swap => self.stack.swap(),
        };
        proof {
            assert(final(self)@ =~~= (Model {
                stack: spec_apply_op(old(self)@.stack, op).0,
                ..old(self)@
            }));
        }
        r
    }

    /// Process a token while skipping an untaken region: only the
    /// block-structural keywords act, everything else is discarded.
    fn handle_skip_mode(&mut self, token: &OwnedToken) -> (r: Result<(), WofError>)
        requires
            old(self)@.skip > 0,
        ensures
            final(self)@ == spec_skip_step(old(self)@, token@),
            final(self).buf() == old(self).buf(),
            r is Ok,
    {
        let t = &token.text;
        if one_char(t, '⺆') || one_char(t, '若') || kw_eq(t, "if") || kw_eq(t, "loop")
            || one_char(t, '⟳') {
            if self.skip_depth < usize::MAX {
                self.skip_depth = self.skip_depth + 1;
            }
        } else if one_char(t, '⺘') {
            if self.skip_depth == 1 {
                self.skip_depth = 0;
                self.pop_scope();
            } else {
                self.skip_depth = self.skip_depth - 1;
            }
        } else if one_char(t, '或') || kw_eq(t, "else") {
            if self.skip_depth == 1 {
                self.skip_depth = 0;
            }
        }
        proof {
            assert(self@ =~~= spec_skip_step(old(self)@, token@));
        }
        Ok(())
    }

    /// Dispatch a symbol: the two-token variable forms, the control-flow
    /// keywords, a registered operation, an auto-loaded variable, or the
    /// bare-symbol push, in that order.
    fn dispatch_symbol(&mut self, name: &String) -> (r: Result<(), WofError>)
        requires
            old(self)@.wf(),
            old(self)@.skip == 0,
        ensures
            ({
                let next = if old(self).buf().len() > 0 {
                    Some(old(self).buf()[0])
                } else {
                    None
                };
                let so = spec_dispatch_symbol(old(self)@, name@, next);
                &&& final(self)@ == so.m
                &&& final(self).buf() == if so.used_next {
                    old(self).buf().skip(1)
                } else {
                    old(self).buf()
                }
                &&& match r {
                    Ok(()) => so.err is None,
                    Err(e) => so.err == Some(e),
                }
            }),
    {
        if one_char(name, '読') || kw_eq(name, "load") || kw_eq(name, "get") {
            let r = match self.token_buffer.pop_front() {
                Some(next) => {
                    if next.kind == TokenKind::Symbol {
                        match self.scopes.get_var(next.text.as_str()) {
                            Ok(v) => {
                                self.stack.push(v);
                                Ok(())
                            },
                            Err(e) => Err(e),
                        }
                    } else {
                        self.token_buffer.push_front(next);
                        proof {
                            assert(final(self).buf() =~~= old(self).buf());
                        }
                        Err(WofError::Usage)
                    }
                },
                None => Err(WofError::Usage),
            };
            return r;
        }
        if one_char(name, '字') || kw_eq(name, "define") || kw_eq(name, "let") {
            let r = match self.token_buffer.pop_front() {
                Some(next) => {
                    if next.kind == TokenKind::Symbol {
                        match self.stack.pop() {
                            Ok(v) => {
                                self.scopes.define(next.text, v);
                                Ok(())
                            },
                            Err(e) => Err(e),
                        }
                    } else {
                        self.token_buffer.push_front(next);
                        proof {
                            assert(final(self).buf() =~~= old(self).buf());
                        }
                        Err(WofError::Usage)
                    }
                },
                None => Err(WofError::Usage),
            };
            return r;
        }
        if one_char(name, '支') || kw_eq(name, "set") || kw_eq(name, "store") {
            let r = match self.token_buffer.pop_front() {
                Some(next) => {
                    if next.kind == TokenKind::Symbol {
                        match self.stack.pop() {
                            Ok(v) => match self.scopes.set_var(next.text.as_str(), v) {
                                Ok(()) => Ok(()),
                                Err(e) => Err(e),
                            },
                            Err(e) => Err(e),
                        }
                    } else {
                        self.token_buffer.push_front(next);
                        proof {
                            assert(final(self).buf() =~~= old(self).buf());
                        }
                        Err(WofError::Usage)
                    }
                },
                None => Err(WofError::Usage),
            };
            return r;
        }
        if one_char(name, '若') || kw_eq(name, "if") {
            let r = match self.stack.pop() {
                Ok(cond) => {
                    let truthy = cond.is_truthy();
                    let _id = self.push_scope(BlockType::If);
                    if !truthy {
                        self.skip_depth = 1;
                    }
                    Ok(())
                },
                Err(e) => Err(e),
            };
            return r;
        }
        if one_char(name, '或') || kw_eq(name, "else") {
            self.skip_depth = 1;
            return Ok(());
        }
        if one_char(name, '⺆') {
            let _id = self.push_scope(BlockType::Generic);
            return Ok(());
        }
        if one_char(name, '⺘') {
            self.pop_scope();
            return Ok(());
        }
        let found = self.registry.get(name);
        match found {
            Some(op) => self.apply_op(op),
            None => {
                match self.scopes.get_var(name.as_str()) {
                    Ok(v) => {
                        self.stack.push(v);
                        Ok(())
                    },
                    Err(_) => {
                        self.stack.push(Value::Symbol(name.clone()));
                        Ok(())
                    },
                }
            },
        }
    }

    /// Dispatch one buffered token: in skip mode only block structure
    /// counts; otherwise literals push their value and symbols go through
    /// symbol dispatch.
    fn dispatch_owned_token(&mut self, token: &OwnedToken) -> (r: Result<(), WofError>)
        requires
            old(self)@.wf(),
            token_wf(token@),
        ensures
            ({
                let next = if old(self).buf().len() > 0 {
                    Some(old(self).buf()[0])
                } else {
                    None
                };
                let so = spec_step(old(self)@, token@, next);
                &&& final(self)@ == so.m
                &&& final(self)@.wf()
                &&& final(self).buf() == if so.used_next {
                    old(self).buf().skip(1)
                } else {
                    old(self).buf()
                }
                &&& match r {
                    Ok(()) => so.err is None,
                    Err(e) => so.err == Some(e),
                }
            }),
    {
        if self.skip_depth > 0 {
            return self.handle_skip_mode(token);
        }
        match token.kind {
            TokenKind::Integer => match parse_int_text(token.text.as_str()) {
                Ok(v) => {
                    self.stack.push(Value::Integer(v));
                    Ok(())
                },
                Err(e) => Err(e),
            },
            TokenKind::Float => match parse_float_text(token.text.as_str()) {
                Ok(n) => {
                    self.stack.push(Value::Double(n));
                    Ok(())
                },
                Err(e) => Err(e),
            },
            TokenKind::Str => {
                let s = parse_string_literal(token.text.as_str());
                self.stack.push(Value::Str(s));
                    Ok(())
            },
            TokenKind::Symbol => self.dispatch_symbol(&token.text),
            TokenKind::Label => Ok(()),
            TokenKind::LabelRef => {
                let s = labelref_symbol_text(token.text.as_str());
                self.stack.push(Value::Symbol(s));
                    Ok(())
            },
            TokenKind::Eof => Ok(()),
        }
    }

    /// Execute one line of source: tokenize it, buffer the tokens, and
    /// dispatch them front to back. The first failing step aborts the
    /// rest of the line with the state it left behind.
    pub fn exec_line(&mut self, line: &str) -> (r: Result<(), WofError>)
        requires
            old(self)@.wf(),
        ensures
            final(self)@ == spec_run(old(self)@, spec_tokenize(line@)).m,
            final(self)@.wf(),
            match r {
                Ok(()) => spec_run(old(self)@, spec_tokenize(line@)).err is None,
                Err(e) => spec_run(old(self)@, spec_tokenize(line@)).err == Some(e),
            },
    {
        let toks = tokenize(line);
        self.token_buffer.clear();
        let mut idx: usize = 0;
        proof {
            assert(self.buf() =~~= toks@.map_values(|t: OwnedToken| t@).take(0));
        }
        while idx < toks.len()
            invariant
                idx <= toks@.len(),
                self@ == old(self)@,
                toks@.map_values(|t: OwnedToken| t@) == spec_tokenize(line@),
                self.buf() == toks@.map_values(|t: OwnedToken| t@).take(idx as int),
            decreases toks@.len() - idx,
        {
            let ghost bprev = self.buf();
            self.token_buffer.push_back(toks[idx].clone());
            proof {
                assert(self.buf() =~~= bprev.push(toks@[idx as int]@));
                assert(toks@.map_values(|t: OwnedToken| t@)[idx as int] == toks@[idx as int]@);
                assert(self.buf() =~~= toks@.map_values(|t: OwnedToken| t@).take(idx as int + 1));
            }
            idx = idx + 1;
        }
        proof {
            assert(self.buf() =~~= spec_tokenize(line@));
            lemma_tokenize_wf(line@, 0);
        }
        let ghost m0 = old(self)@;
        let ghost all = spec_tokenize(line@);
        while self.token_buffer.len() > 0
            invariant
                m0 == old(self)@,
                all == spec_tokenize(line@),
                self@.wf(),
                forall|k: int| 0 <= k < self.buf().len() ==> #[trigger] token_wf(self.buf()[k]),
                spec_run(m0, all) == spec_run(self@, self.buf()),
            decreases self.token_buffer.len(),
        {
            let ghost mprev = self@;
            let ghost bufprev = self.buf();
            let tok = match self.token_buffer.pop_front() {
                Some(t) => t,
                None => {
                    proof {
                        assert(false);
                    }
                    return Ok(());
                },
            };
            proof {
                assert(self.buf() =~~= bufprev.skip(1));
                assert(self@ == mprev);
            }
            let ghost bufrest = self.buf();
            match self.dispatch_owned_token(&tok) {
                Ok(()) => {
                    proof {
                        let next = if bufrest.len() > 0 {
                            Some(bufrest[0])
                        } else {
                            None
                        };
                        let so = spec_step(mprev, tok@, next);
                        assert(bufprev[0] == tok@);
                        if bufprev.len() > 1 {
                            assert(bufprev[1] == bufrest[0]);
                        }
                        if so.used_next {
                            assert(self.buf() =~~= bufprev.skip(2));
                        }
                        assert(spec_run(mprev, bufprev) == spec_run(self@, self.buf()));
                    }
                },
                Err(e) => {
                    proof {
                        let next = if bufrest.len() > 0 {
                            Some(bufrest[0])
                        } else {
                            None
                        };
                        let so = spec_step(mprev, tok@, next);
                        assert(bufprev[0] == tok@);
                        if bufprev.len() > 1 {
                            assert(bufprev[1] == bufrest[0]);
                        }
                        assert(spec_run(mprev, bufprev) == RunOut { m: so.m, err: so.err });
                        assert(spec_run(m0, all).m == so.m);
                        assert(spec_run(m0, all).err == Some(e));
                        assert(self@ == so.m);
                    }
                    return Err(e);
                },
            }
        }
        proof {
            assert(self.buf().len() == 0);
            assert(spec_run(self@, self.buf()) == RunOut { m: self@, err: None::<WofError> });
        }
        Ok(())
    }
}

impl Default for Interpreter {
    /// A default interpreter is a fresh one with an empty registry.
    fn default() -> (r: Self)
        ensures
            r@ == Self::initial_model(Seq::empty()),
    {
        Self::new()
    }
}

/// Whether a symbol's text is exactly the given keyword.
fn kw_eq(name: &String, lit: &str) -> (r: bool)
    ensures
        r == (name@ == lit@),
{
    *name == String::from_str(lit)
}

/// Whether a symbol's text is exactly the given single character.
fn one_char(name: &String, c: char) -> (r: bool)
    ensures
        r == (name@ == seq![c]),
{
    let s = name.as_str();
    if s.unicode_len() == 1 {
        let r = s.get_char(0) == c;
        proof {
            if r {
                assert(name@ =~= seq![c]);
            } else {
                assert(name@ != seq![c]);
            }
        }
        r
    } else {
        false
    }
}

} // verus!
