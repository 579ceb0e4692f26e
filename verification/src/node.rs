//! The full node: it keeps every block of the chain.

use crate::block::{Block, BlockModel};
use crate::blockchain::{chain_verdict, Blockchain};
use crate::consensus::Merge;
use crate::mempool::Mempool;
use crate::network::{handle_event, Event, Received};
use crate::transactions::TxModel;
use crate::wire::{block_json, is_block_json, starts_with_block, DecodeError};
use vstd::prelude::*;

verus! {

/// The chain after `block` went through the merge rule of a node that keeps
/// history: the block is appended if it follows the tip directly, and
/// dropped otherwise.
pub open spec fn merged_chain(chain: Seq<BlockModel>, block: BlockModel) -> Seq<BlockModel> {
    if chain_verdict(chain.last(), block) == Merge::Promoted {
        chain.push(block)
    } else {
        chain
    }
}

/// A node that keeps the whole chain and a pool of pending transactions.
pub struct Node {
    chain: Blockchain,
    pool: Mempool,
}

impl Node {
    /// The chain the node keeps.
    pub closed spec fn blocks(&self) -> Seq<BlockModel> {
        self.chain@
    }

    /// The transactions that wait in the node's pool, in the order they
    /// came.
    pub closed spec fn pending(&self) -> Seq<TxModel> {
        self.pool@
    }

    /// The invariant of the type: the blocks form a chain, and no pending
    /// transaction occurs twice. Every constructor establishes it and every
    /// method keeps it.
    pub closed spec fn wf(&self) -> bool {
        self.chain.wf() && self.pool.wf()
    }

    /// A node whose chain holds the genesis block alone, with nothing
    /// pending.
    pub fn new() -> (node: Node)
        ensures
            node.wf(),
            node.blocks().len() == 1,
            node.blocks()[0].is_genesis(),
            node.pending().len() == 0,
    {
        Node { chain: Blockchain::new(), pool: Mempool::new() }
    }

    /// The chain the node keeps.
    pub fn chain(&self) -> (chain: &Blockchain)
        requires
            self.wf(),
        ensures
            chain.wf(),
            chain@ == self.blocks(),
    {
        &self.chain
    }

    /// The pool of pending transactions.
    pub fn pool(&self) -> (pool: &Mempool)
        requires
            self.wf(),
        ensures
            pool.wf(),
            pool@ == self.pending(),
    {
        &self.pool
    }

    /// The block at the head of the chain.
    pub fn current_tip(&self) -> (tip: &Block)
        requires
            self.wf(),
        ensures
            tip@ == self.blocks().last(),
    {
        self.chain.current_tip()
    }

    /// Applies the merge rule to `block`: it is appended if it is ahead of
    /// the tip and follows it directly, and dropped otherwise. The pool is
    /// left as it was.
    pub fn try_promote(&mut self, block: Block) -> (outcome: Merge)
        requires
            old(self).wf(),
        ensures
            final(self).wf(),
            outcome == chain_verdict(old(self).blocks().last(), block@),
            final(self).blocks() == merged_chain(old(self).blocks(), block@),
            final(self).pending() == old(self).pending(),
    {
        self.chain.try_promote(block)
    }

    /// Takes one poll of the transport: a block that arrived goes through
    /// the merge rule; a payload that is no block is dropped and leaves the
    /// chain as it was, as does a poll in which no block arrived. The pool is
    /// left as it was in every case.
    pub fn receive(&mut self, event: &Event) -> (outcome: Received)
        requires
            old(self).wf(),
        ensures
            final(self).wf(),
            final(self).pending() == old(self).pending(),
            match *event {
                Event::Message(payload) => {
                    &&& forall|model: BlockModel|
                        payload@ == #[trigger] block_json(model) ==> final(self).blocks()
                            == merged_chain(old(self).blocks(), model) && outcome
                            == Received::Merged(chain_verdict(old(self).blocks().last(), model))
                    &&& !is_block_json(payload@) ==> outcome is Undecodable && final(self).blocks()
                        == old(self).blocks()
                    &&& outcome == Received::Undecodable(DecodeError::Malformed)
                        <==> !starts_with_block(payload@)
                },
                _ => outcome == Received::Idle && final(self).blocks() == old(self).blocks(),
            },
    {
        match handle_event(event) {
            Ok(Some(block)) => Received::Merged(self.try_promote(block)),
            Ok(None) => Received::Idle,
            Err(error) => Received::Undecodable(error),
        }
    }
}

/// The block that directly follows the tip is appended and becomes the tip.
pub proof fn lemma_successor_is_appended(chain: Seq<BlockModel>, block: BlockModel)
    requires
        chain.len() >= 1,
        block.index == chain.last().index + 1,
    ensures
        merged_chain(chain, block) == chain.push(block),
        merged_chain(chain, block).last() == block,
{
}

/// A block that does not follow the tip directly leaves the chain as it
/// was, whether it is behind the tip or ahead of it.
pub proof fn lemma_other_blocks_are_dropped(chain: Seq<BlockModel>, block: BlockModel)
    requires
        block.index != chain.last().index + 1,
    ensures
        merged_chain(chain, block) == chain,
{
}

/// Two blocks that follow the tip one after the other, arriving in that
/// order, are both appended: the tip ends at the higher index.
pub proof fn lemma_in_order_arrival(chain: Seq<BlockModel>, first: BlockModel, second: BlockModel)
    requires
        chain.len() >= 1,
        first.index == chain.last().index + 1,
        second.index == first.index + 1,
    ensures
        merged_chain(merged_chain(chain, first), second) == chain.push(first).push(second),
        merged_chain(merged_chain(chain, first), second).last().index == chain.last().index + 2,
{
}

/// The same two blocks arriving in the other order: the later block does
/// not follow the tip and is dropped, then the earlier one is appended. A
/// chain that keeps its history ends one block short until the later block
/// is sent again.
pub proof fn lemma_out_of_order_arrival(
    chain: Seq<BlockModel>,
    first: BlockModel,
    second: BlockModel,
)
    requires
        chain.len() >= 1,
        first.index == chain.last().index + 1,
        second.index == first.index + 1,
    ensures
        merged_chain(merged_chain(chain, second), first) == chain.push(first),
{
}

} // verus!
