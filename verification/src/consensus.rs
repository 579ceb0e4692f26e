//! The merge rule: which block a node takes as its tip.
//!
//! Only indices are compared. A block with a higher index than the tip is
//! promoted; any other block is stale and dropped. There is no
//! reorganization and no comparison of accumulated work.

use crate::block::BlockModel;
use vstd::prelude::*;

verus! {

/// What became of a block handed to the merge rule.
#[derive(Clone, Copy, Debug, PartialEq, Eq, Structural)]
pub enum Merge {
    /// The block has a higher index than the tip and took its place.
    Promoted,
    /// The block's index is not above the tip's: a duplicate or an old
    /// block. The tip is unchanged.
    Stale,
    /// The block is ahead of the tip but does not follow it directly, so a
    /// chain that keeps its history cannot append it. The tip is unchanged.
    Gap,
}

/// Whether the merge rule promotes `block` over `tip`.
pub open spec fn outranks(block: BlockModel, tip: BlockModel) -> bool {
    block.index > tip.index
}

/// The tip after `block` is promoted onto it: the block's index, hash and
/// previous hash replace the tip's; the tip's other fields stay.
pub open spec fn promoted_tip(tip: BlockModel, block: BlockModel) -> BlockModel {
    BlockModel { index: block.index, hash: block.hash, previous_hash: block.previous_hash, ..tip }
}

/// The tip after `block` went through the merge rule.
pub open spec fn merged_tip(tip: BlockModel, block: BlockModel) -> BlockModel {
    if outranks(block, tip) {
        promoted_tip(tip, block)
    } else {
        tip
    }
}

/// The block that directly follows the tip is promoted: the tip takes its
/// index, hash and previous hash.
pub proof fn lemma_successor_is_promoted(tip: BlockModel, block: BlockModel)
    requires
        block.index == tip.index + 1,
    ensures
        outranks(block, tip),
        merged_tip(tip, block).index == block.index,
        merged_tip(tip, block).hash == block.hash,
        merged_tip(tip, block).previous_hash == block.previous_hash,
{
}

/// A block whose index is not above the tip's leaves the tip as it was.
pub proof fn lemma_stale_is_dropped(tip: BlockModel, block: BlockModel)
    requires
        block.index <= tip.index,
    ensures
        merged_tip(tip, block) == tip,
{
}

/// Of two blocks ahead of the tip, the one with the higher index wins
/// whichever arrives first: both orders end in the same tip.
pub proof fn lemma_highest_index_wins(tip: BlockModel, low: BlockModel, high: BlockModel)
    requires
        low.index < high.index,
        tip.index < high.index,
    ensures
        merged_tip(merged_tip(tip, low), high) == promoted_tip(tip, high),
        merged_tip(merged_tip(tip, high), low) == promoted_tip(tip, high),
{
}

/// The merge rule never lowers the tip's index.
pub proof fn lemma_merge_never_lowers(tip: BlockModel, block: BlockModel)
    ensures
        merged_tip(tip, block).index >= tip.index,
        merged_tip(tip, block).index >= block.index,
{
}

} // verus!
