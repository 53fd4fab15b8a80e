//! The block in whose context a call is made.

use vstd::prelude::*;

verus! {

/// A block, named by its hash or by its number.
#[derive(Clone, Copy, Debug, PartialEq, Eq)]
pub enum BlockId<Hash, Number> {
    Hash(Hash),
    Number(Number),
}

/// The context of a call.
#[derive(Clone, Copy, Debug, PartialEq, Eq)]
pub enum CallAt<Hash, Number> {
    /// At the state of the given block.
    At(BlockId<Hash, Number>),
}

impl<Hash: Copy, Number: Copy> CallAt<Hash, Number> {
    /// The block at which the call is made.
    pub fn block_id(&self) -> (id: BlockId<Hash, Number>)
        ensures
            *self == CallAt::At(id),
    {
        match self {
            CallAt::At(id) => *id,
        }
    }

    /// The context of a call at the block `id`.
    pub fn at(id: BlockId<Hash, Number>) -> (context: CallAt<Hash, Number>)
        ensures
            context == CallAt::At(id),
    {
        CallAt::At(id)
    }
}

} // verus!
