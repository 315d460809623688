//! The name-to-operation table the dispatch engine consults for symbols
//! that are not keywords.

use vstd::prelude::*;

verus! {

/// A stack operation the interpreter can run for a registered name.
///
/// Handlers are drawn from this fixed set of stack effects, so every
/// registered operation has verified behaviour; which names trigger which
/// operation stays fully open to the host.
#[derive(Clone, Copy, Debug, PartialEq, Eq, Structural)]
pub enum Op {
    /// Pop two numeric values and push their sum as a double.
    Add,
    /// Pop two numeric values and push their difference as a double.
    Sub,
    /// Duplicate the top value.
    Dup,
    /// Discard the top value.
    Drop,
    /// Exchange the two top values.
    Swap,
}

/// The most recent operation registered for a name, if any.
pub open spec fn spec_reg_lookup(entries: Seq<(Seq<char>, Op)>, name: Seq<char>) -> Option<Op>
    decreases entries.len(),
{
    if entries.len() == 0 {
        None
    } else if entries.last().0 == name {
        Some(entries.last().1)
    } else {
        spec_reg_lookup(entries.drop_last(), name)
    }
}

/// The operation registry: a name-keyed table of operations. The model is
/// the registration history, oldest first; the latest entry for a name is
/// the one lookup returns, so re-registering a name replaces its meaning.
pub struct Registry {
    entries: Vec<(String, Op)>,
}

impl View for Registry {
    type V = Seq<(Seq<char>, Op)>;

    closed spec fn view(&self) -> Seq<(Seq<char>, Op)> {
        self.entries@.map_values(|e: (String, Op)| (e.0@, e.1))
    }
}

impl Registry {
    /// An empty registry: every lookup misses.
    pub fn new() -> (r: Self)
        ensures
            r@ == Seq::<(Seq<char>, Op)>::empty(),
    {
        let r = Registry { entries: Vec::new() };
        proof {
            assert(r@ =~~= Seq::<(Seq<char>, Op)>::empty());
        }
        r
    }

    /// Bind a name to an operation. A later registration for the same
    /// name wins.
    pub fn register(&mut self, name: &str, op: Op)
        ensures
            final(self)@ == old(self)@.push((name@, op)),
    {
        self.entries.push((String::from_str(name), op));
        proof {
            assert(final(self)@ =~~= old(self)@.push((name@, op)));
        }
    }

    /// The operation registered for a name, latest registration first;
    /// an unknown name misses.
    pub fn get(&self, name: &String) -> (r: Option<Op>)
        ensures
            r == spec_reg_lookup(self@, name@),
    {
        let mut i = self.entries.len();
        while i > 0
            invariant
                i <= self@.len(),
                forall|j: int| i <= j < self@.len() ==> self@[j].0 != name@,
            decreases i,
        {
            i = i - 1;
            if self.entries[i].0 == *name {
                proof {
                    lemma_reg_lookup_at(self@, name@, i as int);
                }
                return Some(self.entries[i].1);
            }
        }
        proof {
            lemma_reg_lookup_none(self@, name@);
        }
        None
    }
}

/// A registry lookup resolves at entry `i` when that entry has the name
/// and no later entry does.
proof fn lemma_reg_lookup_at(entries: Seq<(Seq<char>, Op)>, name: Seq<char>, i: int)
    requires
        0 <= i < entries.len(),
        entries[i].0 == name,
        forall|j: int| i < j < entries.len() ==> entries[j].0 != name,
    ensures
        spec_reg_lookup(entries, name) == Some(entries[i].1),
    decreases entries.len(),
{
    if i < entries.len() - 1 {
        lemma_reg_lookup_at(entries.drop_last(), name, i);
    }
}

/// A registry with no entry for the name misses.
proof fn lemma_reg_lookup_none(entries: Seq<(Seq<char>, Op)>, name: Seq<char>)
    requires
        forall|j: int| 0 <= j < entries.len() ==> entries[j].0 != name,
    ensures
        spec_reg_lookup(entries, name) is None,
    decreases entries.len(),
{
    if entries.len() > 0 {
        lemma_reg_lookup_none(entries.drop_last(), name);
    }
}

} // verus!
