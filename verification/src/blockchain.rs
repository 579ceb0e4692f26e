//! The chain a full node keeps: every block from genesis to the tip.

use crate::block::{Block, BlockModel};
use crate::consensus::{outranks, Merge};
use vstd::prelude::*;

verus! {

/// Whether a sequence of blocks is a chain: it starts at genesis and each
/// block's index is one more than that of the block before it.
pub open spec fn is_chain(blocks: Seq<BlockModel>) -> bool {
    &&& blocks.len() >= 1
    &&& blocks[0].is_genesis()
    &&& forall|i: int| 0 <= i < blocks.len() ==> (#[trigger] blocks[i]).index == i
}

/// The blocks, in order, of a list of blocks.
pub open spec fn block_models(blocks: Seq<Block>) -> Seq<BlockModel> {
    Seq::new(blocks.len(), |i: int| blocks[i]@)
}

/// An append-only sequence of blocks that starts at genesis.
pub struct Blockchain {
    chain: Vec<Block>,
}

impl View for Blockchain {
    type V = Seq<BlockModel>;

    closed spec fn view(&self) -> Seq<BlockModel> {
        block_models(self.chain@)
    }
}

impl Blockchain {
    /// The invariant of the type: the blocks form a chain. Every
    /// constructor establishes it and every method keeps it.
    pub open spec fn wf(&self) -> bool {
        is_chain(self@)
    }

    /// A chain that holds the genesis block alone.
    pub fn new() -> (chain: Blockchain)
        ensures
            chain.wf(),
            chain@.len() == 1,
    {
        let mut blocks: Vec<Block> = Vec::new();
        blocks.push(Block::genesis());
        Blockchain { chain: blocks }
    }

    /// The number of blocks, genesis included.
    pub fn len(&self) -> (n: usize)
        requires
            self.wf(),
        ensures
            n == self@.len(),
    {
        self.chain.len()
    }

    /// The block at the head of the chain.
    pub fn current_tip(&self) -> (tip: &Block)
        requires
            self.wf(),
        ensures
            tip@ == self@.last(),
    {
        &self.chain[self.chain.len() - 1]
    }

    /// The block at `index`, if the chain has grown that far.
    pub fn get(&self, index: u32) -> (found: Option<&Block>)
        requires
            self.wf(),
        ensures
            index < self@.len() <==> found is Some,
            found matches Some(block) ==> block@ == self@[index as int] && block.index == index,
    {
        if (index as usize) < self.chain.len() {
            Some(&self.chain[index as usize])
        } else {
            None
        }
    }

    /// Appends `block` if its index is one more than the tip's, and says
    /// whether it did. A block that does not follow the tip is dropped.
    pub fn add_block(&mut self, block: Block) -> (appended: bool)
        requires
            old(self).wf(),
        ensures
            final(self).wf(),
            appended == (block.index == old(self)@.last().index + 1),
            appended ==> final(self)@ == old(self)@.push(block@),
            !appended ==> final(self)@ == old(self)@,
    {
        let tip_index = self.chain[self.chain.len() - 1].index;
        if block.index > tip_index && block.index - tip_index == 1 {
            let ghost before = self.chain@;
            self.chain.push(block);
            assert(block_models(self.chain@) =~= block_models(before).push(block@));
            assert(old(self)@.last().index == old(self)@.len() - 1);
            assert(self@[0] == old(self)@[0]);
            assert forall|i: int| 0 <= i < self@.len() implies (#[trigger] self@[i]).index == i by {
                if i < old(self)@.len() {
                    assert(self@[i] == old(self)@[i]);
                }
            }
            true
        } else {
            false
        }
    }

    /// Applies the merge rule to `block`: a block ahead of the tip is
    /// appended if it follows the tip directly; a block at or behind the
    /// tip is stale.
    pub fn try_promote(&mut self, block: Block) -> (outcome: Merge)
        requires
            old(self).wf(),
        ensures
            final(self).wf(),
            outcome == chain_verdict(old(self)@.last(), block@),
            outcome == Merge::Promoted ==> final(self)@ == old(self)@.push(block@),
            outcome != Merge::Promoted ==> final(self)@ == old(self)@,
    {
        if block.index > self.chain[self.chain.len() - 1].index {
            if self.add_block(block) {
                Merge::Promoted
            } else {
                Merge::Gap
            }
        } else {
            Merge::Stale
        }
    }
}

/// What the merge rule decides for `block` on a chain whose tip is `tip`.
pub open spec fn chain_verdict(tip: BlockModel, block: BlockModel) -> Merge {
    if !outranks(block, tip) {
        Merge::Stale
    } else if block.index == tip.index + 1 {
        Merge::Promoted
    } else {
        Merge::Gap
    }
}

} // verus!
