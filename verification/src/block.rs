//! Blocks.

use crate::hashing::{block_hash, hash_meets_target};
use crate::transactions::{Tx, TxModel};
use vstd::prelude::*;

verus! {

/// Every byte of the genesis block's hash: a fixed sentinel, not a digest.
pub const GENESIS_HASH_BYTE: u8 = 8;

/// Nonce of the genesis block.
pub const GENESIS_NONCE: u64 = 420;

/// Target of the genesis block, two to the power of 40. No block ever
/// changes it: each candidate inherits the target of the tip it extends.
pub const GENESIS_TARGET: u64 = 0x100_0000_0000;

/// One link of the chain.
#[derive(Debug, PartialEq, Eq)]
pub struct Block {
    pub index: u32,
    pub hash: [u8; 32],
    pub previous_hash: [u8; 32],
    pub transactions: Vec<Tx>,
    pub time: u64,
    pub nonce: u64,
    pub target: u64,
}

/// The mathematical value of a block.
pub struct BlockModel {
    pub index: u32,
    pub hash: [u8; 32],
    pub previous_hash: [u8; 32],
    pub transactions: Seq<TxModel>,
    pub time: u64,
    pub nonce: u64,
    pub target: u64,
}

/// The values of a list of transactions, in order.
pub open spec fn tx_models(txs: Seq<Tx>) -> Seq<TxModel> {
    Seq::new(txs.len(), |i: int| txs[i]@)
}

impl View for Block {
    type V = BlockModel;

    open spec fn view(&self) -> BlockModel {
        BlockModel {
            index: self.index,
            hash: self.hash,
            previous_hash: self.previous_hash,
            transactions: tx_models(self.transactions@),
            time: self.time,
            nonce: self.nonce,
            target: self.target,
        }
    }
}

impl BlockModel {
    /// Whether this is the genesis block.
    pub open spec fn is_genesis(self) -> bool {
        &&& self.index == 0
        &&& self.hash@ == Seq::new(32, |i: int| GENESIS_HASH_BYTE)
        &&& self.previous_hash@ == Seq::new(32, |i: int| 0u8)
        &&& self.transactions == Seq::<TxModel>::empty()
        &&& self.time == 0
        &&& self.nonce == GENESIS_NONCE
        &&& self.target == GENESIS_TARGET
    }

    /// Whether the hash is the digest of the index, the previous hash and
    /// the nonce. The transactions do not enter the digest.
    pub open spec fn sealed(self) -> bool {
        self.hash@ == block_hash(self.index, self.previous_hash@, self.nonce)
    }

    /// Whether the block carries a valid proof of work for its own target.
    pub open spec fn proves_work(self) -> bool {
        self.sealed() && hash_meets_target(self.hash@, self.target)
    }

    /// Whether the block is a direct successor of `parent`.
    pub open spec fn extends(self, parent: BlockModel) -> bool {
        self.index == parent.index + 1 && self.previous_hash == parent.hash
    }
}

impl Block {
    /// The genesis block: index 0, the sentinel hash, no predecessor, no
    /// transactions.
    pub fn genesis() -> (block: Block)
        ensures
            block@.is_genesis(),
    {
        let block = Block {
            index: 0,
            hash: [GENESIS_HASH_BYTE; 32],
            previous_hash: [0u8; 32],
            transactions: Vec::new(),
            time: 0,
            nonce: GENESIS_NONCE,
            target: GENESIS_TARGET,
        };
        assert(block@.hash@ =~= Seq::new(32, |i: int| GENESIS_HASH_BYTE));
        assert(block@.previous_hash@ =~= Seq::new(32, |i: int| 0u8));
        assert(block@.transactions =~= Seq::<TxModel>::empty());
        block
    }
}

impl Clone for Block {
    fn clone(&self) -> (copy: Block)
        ensures
            copy@ == self@,
    {
        let mut transactions: Vec<Tx> = Vec::new();
        let mut i: usize = 0;
        while i < self.transactions.len()
            invariant
                i <= self.transactions.len(),
                transactions@.len() == i,
                forall|k: int| 0 <= k < i ==> transactions@[k]@ == self.transactions@[k]@,
            decreases self.transactions.len() - i,
        {
            let tx = self.transactions[i].clone();
            transactions.push(tx);
            i += 1;
        }
        assert(tx_models(transactions@) =~= tx_models(self.transactions@));
        Block {
            index: self.index,
            hash: self.hash,
            previous_hash: self.previous_hash,
            transactions,
            time: self.time,
            nonce: self.nonce,
            target: self.target,
        }
    }
}

} // verus!
