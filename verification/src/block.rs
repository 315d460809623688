//! Control-flow block records and the stack of open blocks.

use vstd::prelude::*;

verus! {

/// A place in the source, as a start and end offset.
#[derive(Clone, Copy, Debug, PartialEq, Eq, Structural)]
pub struct Span {
    pub start: usize,
    pub end: usize,
}

impl Span {
    /// A span for constructs with no source position of their own.
    pub fn synthetic() -> (r: Span)
        ensures
            r == (Span { start: 0usize, end: 0usize }),
    {
        Span { start: 0, end: 0 }
    }
}

/// What kind of control-flow frame a block is. The kind decides whether
/// the block carries a variable scope: both current kinds do.
#[derive(Clone, Copy, Debug, PartialEq, Eq, Structural)]
pub enum BlockType {
    /// A plain delimited region.
    Generic,
    /// The body of a conditional.
    If,
}

/// Whether a block of this type opens a variable scope when it opens and
/// closes it when it closes. A policy of the type, not of the instance.
pub open spec fn spec_creates_scope(t: BlockType) -> bool {
    match t {
        BlockType::Generic => true,
        BlockType::If => true,
    }
}

impl BlockType {
    /// Whether this block type opens and closes a variable scope.
    pub fn creates_scope(&self) -> (r: bool)
        ensures
            r == spec_creates_scope(*self),
    {
        match self {
            BlockType::Generic => true,
            BlockType::If => true,
        }
    }
}

/// Model of one block record.
#[verifier::ext_equal]
pub struct BlockModel {
    pub block_type: BlockType,
    pub open_pos: int,
    pub parent: Option<int>,
    pub span: Span,
    pub close_pos: Option<int>,
}

/// One control-flow frame: its type, where it opened, its parent block,
/// its source span, and, once closed, where it closed.
pub struct Block {
    /// The kind of frame.
    pub block_type: BlockType,
    /// The instruction position where the block opened.
    pub open_pos: usize,
    /// The identity of the enclosing open block, if any.
    pub parent: Option<usize>,
    /// Where in the source the block comes from.
    pub span: Span,
    /// The position where the block closed; open blocks have none.
    pub close_pos: Option<usize>,
}

impl View for Block {
    type V = BlockModel;

    open spec fn view(&self) -> BlockModel {
        BlockModel {
            block_type: self.block_type,
            open_pos: self.open_pos as int,
            parent: match self.parent {
                Some(p) => Some(p as int),
                None => None,
            },
            span: self.span,
            close_pos: match self.close_pos {
                Some(p) => Some(p as int),
                None => None,
            },
        }
    }
}

/// The durable store of every block ever opened, addressed by identity:
/// a block's identity is its index in the registration order.
pub struct BlockRegistry {
    records: Vec<Block>,
}

impl View for BlockRegistry {
    type V = Seq<BlockModel>;

    closed spec fn view(&self) -> Seq<BlockModel> {
        self.records@.map_values(|b: Block| b@)
    }
}

impl BlockRegistry {
    /// An empty registry.
    pub fn new() -> (r: Self)
        ensures
            r@ == Seq::<BlockModel>::empty(),
    {
        let r = BlockRegistry { records: Vec::new() };
        proof {
            assert(r@ =~~= Seq::<BlockModel>::empty());
        }
        r
    }

    /// How many blocks were ever registered.
    pub fn len(&self) -> (r: usize)
        ensures
            r == self@.len(),
    {
        self.records.len()
    }

    /// Record a newly opened block and hand back its identity.
    pub fn register(&mut self, block_type: BlockType, open_pos: usize, parent: Option<usize>, span: Span)
        -> (r: usize)
        ensures
            r == old(self)@.len(),
            final(self)@ == old(self)@.push(BlockModel {
                block_type,
                open_pos: open_pos as int,
                parent: match parent {
                    Some(p) => Some(p as int),
                    None => None,
                },
                span,
                close_pos: None,
            }),
    {
        let id = self.records.len();
        self.records.push(Block { block_type, open_pos, parent, span, close_pos: None });
        proof {
            assert(final(self)@ =~~= old(self)@.push(BlockModel {
                block_type,
                open_pos: open_pos as int,
                parent: match parent {
                    Some(p) => Some(p as int),
                    None => None,
                },
                span,
                close_pos: None,
            }));
        }
        id
    }

    /// The record for an identity, if it names one.
    pub fn get(&self, id: usize) -> (r: Option<&Block>)
        ensures
            match r {
                Some(b) => id < self@.len() && b@ == self@[id as int],
                None => id >= self@.len(),
            },
    {
        if id < self.records.len() {
            Some(&self.records[id])
        } else {
            None
        }
    }

    /// Mark a block closed at the given position. An identity that names
    /// no block changes nothing.
    pub fn close(&mut self, id: usize, close_pos: usize)
        ensures
            final(self)@ == if id < old(self)@.len() {
                old(self)@.update(id as int, BlockModel {
                    close_pos: Some(close_pos as int),
                    ..old(self)@[id as int]
                })
            } else {
                old(self)@
            },
    {
        if id < self.records.len() {
            let ghost pre = self@;
            let mut tmp = Block {
                block_type: BlockType::Generic,
                open_pos: 0,
                parent: None,
                span: Span::synthetic(),
                close_pos: None,
            };
            self.records.set_and_swap(id, &mut tmp);
            tmp.close_pos = Some(close_pos);
            self.records.set_and_swap(id, &mut tmp);
            proof {
                assert(final(self)@ =~~= pre.update(id as int, BlockModel {
                    close_pos: Some(close_pos as int),
                    ..pre[id as int]
                }));
            }
        }
    }
}

/// The LIFO stack of currently open block identities.
pub struct BlockStack {
    open: Vec<usize>,
}

impl View for BlockStack {
    type V = Seq<int>;

    closed spec fn view(&self) -> Seq<int> {
        self.open@.map_values(|id: usize| id as int)
    }
}

impl BlockStack {
    /// An empty stack: no block is open.
    pub fn new() -> (r: Self)
        ensures
            r@ == Seq::<int>::empty(),
    {
        let r = BlockStack { open: Vec::new() };
        proof {
            assert(r@ =~~= Seq::<int>::empty());
        }
        r
    }

    /// How many blocks are open.
    pub fn depth(&self) -> (r: usize)
        ensures
            r == self@.len(),
    {
        self.open.len()
    }

    /// Note a block as the innermost open one.
    pub fn push(&mut self, id: usize)
        ensures
            final(self)@ == old(self)@.push(id as int),
    {
        self.open.push(id);
        proof {
            assert(final(self)@ =~~= old(self)@.push(id as int));
        }
    }

    /// Take the innermost open block off the stack, if any is open.
    pub fn pop(&mut self) -> (r: Option<usize>)
        ensures
            match r {
                Some(id) => old(self)@.len() > 0 && id as int == old(self)@.last()
                    && final(self)@ == old(self)@.drop_last(),
                None => old(self)@.len() == 0 && final(self)@ == old(self)@,
            },
    {
        let r = self.open.pop();
        proof {
            if r is Some {
                assert(final(self)@ =~~= old(self)@.drop_last());
            }
        }
        r
    }

    /// The innermost open block, if any is open.
    pub fn current(&self) -> (r: Option<usize>)
        ensures
            match r {
                Some(id) => self@.len() > 0 && id as int == self@.last(),
                None => self@.len() == 0,
            },
    {
        if self.open.len() == 0 {
            None
        } else {
            Some(self.open[self.open.len() - 1])
        }
    }
}

} // verus!
