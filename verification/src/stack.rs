//! The LIFO data stack of the interpreter.

use vstd::prelude::*;
use crate::error::WofError;
use crate::value::{AbstractValue, Value, DOUBLE_SCALE};

verus! {

/// The data stack: an ordered sequence of values, last in first out.
/// The model is the sequence of abstract values, bottom first.
pub struct WofStack {
    items: Vec<Value>,
}

impl View for WofStack {
    type V = Seq<AbstractValue>;

    closed spec fn view(&self) -> Seq<AbstractValue> {
        self.items@.map_values(|v: Value| v@)
    }
}

/// The numeric reading of a value: an integer counts as that many whole
/// units, a double is already a fixed-point count of billionths. Text has
/// no numeric reading.
pub open spec fn spec_numeric(v: AbstractValue) -> Option<int> {
    match v {
        AbstractValue::Int(i) => Some(i * DOUBLE_SCALE as int),
        AbstractValue::Dbl(n) => Some(n),
        AbstractValue::Str(_) => None,
        AbstractValue::Sym(_) => None,
    }
}

impl WofStack {
    /// An empty stack.
    pub fn new() -> (r: Self)
        ensures
            r@ == Seq::<AbstractValue>::empty(),
    {
        WofStack { items: Vec::new() }
    }

    /// An empty stack with room reserved for `capacity` values.
    pub fn with_capacity(capacity: usize) -> (r: Self)
        ensures
            r@ == Seq::<AbstractValue>::empty(),
    {
        WofStack { items: Vec::with_capacity(capacity) }
    }

    /// How many values are on the stack.
    pub fn len(&self) -> (r: usize)
        ensures
            r == self@.len(),
    {
        self.items.len()
    }

    /// Whether the stack holds no values.
    pub fn is_empty(&self) -> (r: bool)
        ensures
            r == (self@.len() == 0),
    {
        self.items.len() == 0
    }

    /// Whether the stack holds at least `n` values.
    pub fn has(&self, n: usize) -> (r: bool)
        ensures
            r == (self@.len() >= n),
    {
        self.items.len() >= n
    }

    /// Put a value on top of the stack.
    pub fn push(&mut self, value: Value)
        ensures
            final(self)@ == old(self)@.push(value@),
    {
        let ghost before = self.items@;
        self.items.push(value);
        proof {
            assert(final(self)@ =~= old(self)@.push(self.items@.last()@));
        }
    }

    /// Take the top value off the stack; fails on an empty stack, which it
    /// leaves unchanged.
    pub fn pop(&mut self) -> (r: Result<Value, WofError>)
        ensures
            match r {
                Ok(v) => old(self)@.len() > 0 && v@ == old(self)@.last()
                    && final(self)@ == old(self)@.drop_last(),
                Err(e) => e == WofError::StackUnderflow && old(self)@.len() == 0
                    && final(self)@ == old(self)@,
            },
    {
        match self.items.pop() {
            Some(v) => {
                proof {
                    assert(final(self)@ =~= old(self)@.drop_last());
                }
                Ok(v)
            },
            None => Err(WofError::StackUnderflow),
        }
    }

    /// Look at the top value without removing it; fails on an empty stack.
    pub fn peek(&self) -> (r: Result<&Value, WofError>)
        ensures
            match r {
                Ok(v) => self@.len() > 0 && v@ == self@.last(),
                Err(e) => e == WofError::StackUnderflow && self@.len() == 0,
            },
    {
        if self.items.len() == 0 {
            Err(WofError::StackUnderflow)
        } else {
            Ok(&self.items[self.items.len() - 1])
        }
    }

    /// Remove every value.
    pub fn clear(&mut self)
        ensures
            final(self)@ == Seq::<AbstractValue>::empty(),
    {
        self.items.clear();
    }

    /// Take the top value as a fixed-point count of billionths: an integer
    /// is scaled up, a double is taken as it is. On an empty stack or a
    /// non-numeric top the stack is left unchanged and the pop fails.
    pub fn pop_numeric(&mut self) -> (r: Result<i128, WofError>)
        ensures
            match r {
                Ok(n) => old(self)@.len() > 0
                    && spec_numeric(old(self)@.last()) == Some(n as int)
                    && final(self)@ == old(self)@.drop_last(),
                Err(e) => final(self)@ == old(self)@
                    && (if old(self)@.len() == 0 {
                        e == WofError::StackUnderflow
                    } else {
                        e == WofError::TypeMismatch
                            && spec_numeric(old(self)@.last()) is None
                    }),
            },
    {
        if self.items.len() == 0 {
            return Err(WofError::StackUnderflow);
        }
        let numeric = match &self.items[self.items.len() - 1] {
            Value::Integer(i) => Some((*i as i128) * DOUBLE_SCALE),
            Value::Double(n) => Some(*n),
            _ => None,
        };
        match numeric {
            Some(n) => {
                let _ = self.items.pop();
                proof {
                    assert(final(self)@ =~= old(self)@.drop_last());
                }
                Ok(n)
            },
            None => Err(WofError::TypeMismatch),
        }
    }

    /// Take the top value, which must be an integer; anything else is a
    /// type mismatch that leaves the stack unchanged.
    pub fn pop_integer(&mut self) -> (r: Result<i64, WofError>)
        ensures
            match r {
                Ok(i) => old(self)@.len() > 0
                    && old(self)@.last() == AbstractValue::Int(i as int)
                    && final(self)@ == old(self)@.drop_last(),
                Err(e) => final(self)@ == old(self)@
                    && (if old(self)@.len() == 0 {
                        e == WofError::StackUnderflow
                    } else {
                        e == WofError::TypeMismatch && !(old(self)@.last() is Int)
                    }),
            },
    {
        if self.items.len() == 0 {
            return Err(WofError::StackUnderflow);
        }
        let i = match &self.items[self.items.len() - 1] {
            Value::Integer(i) => Some(*i),
            _ => None,
        };
        match i {
            Some(i) => {
                let _ = self.items.pop();
                proof {
                    assert(final(self)@ =~= old(self)@.drop_last());
                }
                Ok(i)
            },
            None => Err(WofError::TypeMismatch),
        }
    }

    /// Duplicate the top value; fails on an empty stack.
    pub fn dup(&mut self) -> (r: Result<(), WofError>)
        ensures
            match r {
                Ok(()) => old(self)@.len() > 0
                    && final(self)@ == old(self)@.push(old(self)@.last()),
                Err(e) => e == WofError::StackUnderflow && old(self)@.len() == 0
                    && final(self)@ == old(self)@,
            },
    {
        if self.items.len() == 0 {
            return Err(WofError::StackUnderflow);
        }
        let top = self.items[self.items.len() - 1].clone();
        self.items.push(top);
        proof {
            assert(final(self)@ =~= old(self)@.push(old(self)@.last()));
        }
        Ok(())
    }

    /// Discard the top value; fails on an empty stack.
    pub fn drop_top(&mut self) -> (r: Result<(), WofError>)
        ensures
            match r {
                Ok(()) => old(self)@.len() > 0 && final(self)@ == old(self)@.drop_last(),
                Err(e) => e == WofError::StackUnderflow && old(self)@.len() == 0
                    && final(self)@ == old(self)@,
            },
    {
        match self.items.pop() {
            Some(_) => {
                proof {
                    assert(final(self)@ =~= old(self)@.drop_last());
                }
                Ok(())
            },
            None => Err(WofError::StackUnderflow),
        }
    }

    /// Exchange the two top values; fails with fewer than two.
    pub fn swap(&mut self) -> (r: Result<(), WofError>)
        ensures
            match r {
                Ok(()) => old(self)@.len() >= 2
                    && final(self)@ == old(self)@
                        .update(old(self)@.len() - 2, old(self)@.last())
                        .update(old(self)@.len() - 1, old(self)@[old(self)@.len() - 2]),
                Err(e) => e == WofError::StackUnderflow && old(self)@.len() < 2
                    && final(self)@ == old(self)@,
            },
    {
        let n = self.items.len();
        if n < 2 {
            return Err(WofError::StackUnderflow);
        }
        let a = self.items[n - 1].clone();
        let b = self.items[n - 2].clone();
        self.items.set(n - 1, b);
        self.items.set(n - 2, a);
        proof {
            assert(final(self)@ =~= old(self)@
                .update(old(self)@.len() - 2, old(self)@.last())
                .update(old(self)@.len() - 1, old(self)@[old(self)@.len() - 2]));
        }
        Ok(())
    }
}

} // verus!
