//! The miner: proof-of-work search, coinbase issuance and candidate
//! assembly.

use crate::block::{tx_models, Block, BlockModel};
use crate::consensus::{merged_tip, outranks, Merge};
use crate::network::{handle_event, Event, Received};
use crate::wire::{block_json, is_block_json, starts_with_block, DecodeError};
use crate::hashing::{
    attempts_needed, be_bytes_u64, be_value, block_hash, hash_meets_target, hash_with_nonce, is_hit,
    lemma_attempts_after_misses,
};
use crate::input::{input_bytes, Input};
use crate::output::Output;
use crate::outside::{since_epoch, whole_seconds};
use crate::transactions::{
    inputs_bytes, is_collision, outputs_bytes, tx_preimage, Tx, TxModel,
};
use vstd::prelude::*;

verus! {

/// What a miner is paid for a block, before fees.
pub const REWARD: u64 = 5_000_000;

/// Why no candidate block was produced.
#[derive(Clone, Copy, Debug, PartialEq, Eq, Structural)]
pub enum MineError {
    /// The tip already has the largest index a block can have.
    IndexExhausted,
    /// No nonce drawn within the allowed attempts met the target.
    NoValidHash,
    /// The system clock is set before the Unix epoch.
    ClockBeforeEpoch,
}

/// Whether `tx` is the coinbase transaction that pays the reward and `fees`
/// to `address`: one input that spends nothing, one output, and the id
/// derived from both.
pub open spec fn is_coinbase(tx: TxModel, fees: u64, address: [u8; 32]) -> bool {
    &&& tx.inputs.len() == 1
    &&& tx.inputs[0].txid@ == Seq::new(32, |i: int| 0u8)
    &&& tx.outputs == seq![Output { amount: (REWARD + fees) as u64, address }]
    &&& tx.id_matches()
}

/// Whether `candidate` is a block mined on top of `tip` that pays `address`:
/// the next index, linked to the tip's hash, with the tip's target, a valid
/// proof of work and the coinbase as its only transaction.
pub open spec fn is_candidate(candidate: BlockModel, tip: BlockModel, address: [u8; 32]) -> bool {
    &&& candidate.extends(tip)
    &&& candidate.target == tip.target
    &&& candidate.proves_work()
    &&& candidate.transactions.len() == 1
    &&& is_coinbase(candidate.transactions[0], 0, address)
}

/// Two coinbase transactions for the same fees and address whose fillers
/// differ have different canonical bytes. So their ids differ too, unless
/// those bytes are a collision of the hash.
pub proof fn lemma_filler_separates_coinbases(
    first: TxModel,
    second: TxModel,
    fees: u64,
    address: [u8; 32],
)
    requires
        is_coinbase(first, fees, address),
        is_coinbase(second, fees, address),
        first.inputs[0].signature != second.inputs[0].signature,
    ensures
        tx_preimage(first.inputs, first.outputs) != tx_preimage(second.inputs, second.outputs),
        first.txid == second.txid ==> is_collision(
            tx_preimage(first.inputs, first.outputs),
            tx_preimage(second.inputs, second.outputs),
        ),
{
    let a = first.inputs[0].signature;
    let b = second.inputs[0].signature;
    assert(!(a =~= b));
    let i = choose|i: int| 0 <= i < 64 && a[i] != b[i];
    lemma_preimage_holds_filler(first.inputs, first.outputs, i);
    lemma_preimage_holds_filler(second.inputs, second.outputs, i);
}

/// Where a transaction has one input, byte `i` of that input's signature is
/// byte `40 + i` of the transaction's canonical bytes.
proof fn lemma_preimage_holds_filler(inputs: Seq<Input>, outputs: Seq<Output>, i: int)
    requires
        inputs.len() == 1,
        0 <= i < 64,
    ensures
        tx_preimage(inputs, outputs).len() > 40 + i,
        tx_preimage(inputs, outputs)[40 + i] == inputs[0].signature[i],
{
    let count = be_bytes_u64(inputs.len() as u64);
    let body = inputs_bytes(inputs);
    let one = input_bytes(inputs[0]);
    assert(inputs.drop_last().len() == 0);
    assert(inputs_bytes(inputs.drop_last()) =~= Seq::<u8>::empty());
    assert(body =~= one);
    assert(one.len() == 96);
    assert(one[32 + i] == inputs[0].signature[i]);
    let front = count + body;
    assert(front[40 + i] == body[32 + i]);
    let rest = be_bytes_u64(outputs.len() as u64) + outputs_bytes(outputs);
    assert(tx_preimage(inputs, outputs) =~= front + rest);
}

/// A proof-of-work miner paying rewards to one address.
pub struct Miner {
    address: [u8; 32],
    consensus: Block,
}

impl Miner {
    /// The tip the miner follows.
    pub closed spec fn tip(&self) -> BlockModel {
        self.consensus@
    }

    /// The address the miner's rewards are paid to.
    pub closed spec fn reward_address(&self) -> [u8; 32] {
        self.address
    }

    /// A miner that pays rewards to `wallet_addr` and starts from the
    /// genesis block.
    pub fn new(wallet_addr: [u8; 32]) -> (miner: Miner)
        ensures
            miner.reward_address() == wallet_addr,
            miner.tip().is_genesis(),
    {
        Miner { address: wallet_addr, consensus: Block::genesis() }
    }

    /// The address the miner's rewards are paid to.
    pub fn address(&self) -> (address: [u8; 32])
        ensures
            address == self.reward_address(),
    {
        self.address
    }

    /// The tip the miner follows.
    pub fn current_tip(&self) -> (tip: &Block)
        ensures
            tip@ == self.tip(),
    {
        &self.consensus
    }

    /// Applies the merge rule to `block`. If its index is above the tip's,
    /// the tip takes the block's index, hash and previous hash; a miner
    /// keeps no history, so the block need not follow the tip directly.
    /// Any other block is stale and leaves the tip as it was.
    pub fn try_promote(&mut self, block: &Block) -> (outcome: Merge)
        ensures
            final(self).tip() == merged_tip(old(self).tip(), block@),
            outcome == (if outranks(block@, old(self).tip()) {
                Merge::Promoted
            } else {
                Merge::Stale
            }),
            final(self).reward_address() == old(self).reward_address(),
    {
        if block.index > self.consensus.index {
            self.consensus.previous_hash = block.previous_hash;
            self.consensus.hash = block.hash;
            self.consensus.index = block.index;
            Merge::Promoted
        } else {
            Merge::Stale
        }
    }

    /// Takes one poll of the transport: a block that arrived goes through
    /// the merge rule; a payload that is no block is dropped and leaves the
    /// tip as it was, as does a poll in which no block arrived.
    pub fn receive(&mut self, event: &Event) -> (outcome: Received)
        ensures
            final(self).reward_address() == old(self).reward_address(),
            match *event {
                Event::Message(payload) => {
                    &&& forall|model: BlockModel|
                        payload@ == #[trigger] block_json(model) ==> final(self).tip()
                            == merged_tip(old(self).tip(), model) && outcome == Received::Merged(
                            if outranks(model, old(self).tip()) {
                                Merge::Promoted
                            } else {
                                Merge::Stale
                            },
                        )
                    &&& !is_block_json(payload@) ==> outcome is Undecodable && final(self).tip()
                        == old(self).tip()
                    &&& outcome == Received::Undecodable(DecodeError::Malformed)
                        <==> !starts_with_block(payload@)
                },
                _ => outcome == Received::Idle && final(self).tip() == old(self).tip(),
            },
    {
        match handle_event(event) {
            Ok(Some(block)) => Received::Merged(self.try_promote(&block)),
            Ok(None) => Received::Idle,
            Err(error) => Received::Undecodable(error),
        }
    }

    /// Reads the first eight bytes of `hash` as a big-endian integer.
    pub fn h2_u64(hash: [u8; 32]) -> (value: u64)
        ensures
            value == be_value(hash@),
    {
        (hash[0] as u64) * 0x100_0000_0000_0000 + (hash[1] as u64) * 0x1_0000_0000_0000 + (
        hash[2] as u64) * 0x100_0000_0000 + (hash[3] as u64) * 0x1_0000_0000 + (hash[4] as u64)
            * 0x100_0000 + (hash[5] as u64) * 0x1_0000 + (hash[6] as u64) * 0x100 + (
        hash[7] as u64)
    }

    /// Tests a hash against the difficulty target: true when its leading
    /// eight bytes, as a big-endian number, are at most `target`.
    pub fn meets_target(hash: [u8; 32], target: u64) -> (ok: bool)
        ensures
            ok == hash_meets_target(hash@, target),
    {
        Miner::h2_u64(hash) <= target
    }

    /// Hashes a block with a freshly drawn random nonce, and returns the
    /// hash with the nonce.
    pub fn gen_hash_nonce(index: u32, prev_hash: [u8; 32]) -> (candidate: ([u8; 32], u64))
        ensures
            candidate.0@ == block_hash(index, prev_hash@, candidate.1),
    {
        let nonce: u64 = rand::random::<u64>();
        (hash_with_nonce(index, prev_hash, nonce), nonce)
    }

    /// Hashes a block with the given nonce and returns the hash if it meets
    /// the target.
    pub fn check_nonce(
        index: u32,
        prev_hash: [u8; 32],
        target: u64,
        nonce: u64,
    ) -> (found: Option<[u8; 32]>)
        ensures
            found is Some <==> is_hit(index, prev_hash@, target, nonce),
            found matches Some(hash) ==> hash@ == block_hash(index, prev_hash@, nonce),
    {
        let hash = hash_with_nonce(index, prev_hash, nonce);
        if Miner::meets_target(hash, target) {
            Some(hash)
        } else {
            None
        }
    }

    /// Tries the given nonces in order and stops at the first hit. Returns
    /// the position of that nonce and the hash it gives; `None` when no
    /// nonce is a hit.
    pub fn first_hit(
        index: u32,
        prev_hash: [u8; 32],
        target: u64,
        nonces: &[u64],
    ) -> (found: Option<(usize, [u8; 32])>)
        ensures
            match found {
                Some((at, hash)) => {
                    &&& at < nonces@.len()
                    &&& is_hit(index, prev_hash@, target, nonces@[at as int])
                    &&& hash@ == block_hash(index, prev_hash@, nonces@[at as int])
                    &&& forall|j: int|
                        0 <= j < at ==> !is_hit(index, prev_hash@, target, #[trigger] nonces@[j])
                    &&& attempts_needed(index, prev_hash@, target, nonces@) == at + 1
                },
                None => {
                    &&& forall|j: int|
                        0 <= j < nonces@.len() ==> !is_hit(
                            index,
                            prev_hash@,
                            target,
                            #[trigger] nonces@[j],
                        )
                    &&& attempts_needed(index, prev_hash@, target, nonces@) == nonces@.len()
                },
            },
    {
        let mut at: usize = 0;
        while at < nonces.len()
            invariant
                at <= nonces@.len(),
                forall|j: int|
                    0 <= j < at ==> !is_hit(index, prev_hash@, target, #[trigger] nonces@[j]),
            decreases nonces.len() - at,
        {
            match Miner::check_nonce(index, prev_hash, target, nonces[at]) {
                Some(hash) => {
                    proof {
                        lemma_attempts_after_misses(
                            index,
                            prev_hash@,
                            target,
                            nonces@,
                            at as int,
                        );
                        assert(nonces@.skip(at as int)[0] == nonces@[at as int]);
                    }
                    return Some((at, hash));
                },
                None => {},
            }
            at += 1;
        }
        proof {
            lemma_attempts_after_misses(index, prev_hash@, target, nonces@, nonces@.len() as int);
        }
        None
    }

    /// Searches for a nonce whose hash meets the target, drawing at most
    /// `max_attempts` random nonces. Each nonce is tested as soon as it is
    /// drawn, and the search stops at the first hit: it is
    /// [`Miner::first_hit`] over the nonces as they come.
    ///
    /// The search is pure computation and may take long: it is meant to run
    /// on a copy of the tip, away from whatever guards the shared state.
    pub fn gen_valid_hash(
        index: u32,
        prev_hash: [u8; 32],
        target: u64,
        max_attempts: u64,
    ) -> (found: Option<([u8; 32], u64)>)
        ensures
            found matches Some((hash, nonce)) ==> hash@ == block_hash(index, prev_hash@, nonce)
                && hash_meets_target(hash@, target),
            max_attempts == 0 ==> found is None,
            max_attempts > 0 && target == u64::MAX ==> found is Some,
    {
        let mut attempts: u64 = 0;
        while attempts < max_attempts
            invariant
                attempts <= max_attempts,
                target == u64::MAX ==> attempts == 0,
            decreases max_attempts - attempts,
        {
            let nonce: u64 = rand::random::<u64>();
            match Miner::check_nonce(index, prev_hash, target, nonce) {
                Some(hash) => {
                    return Some((hash, nonce));
                },
                None => {},
            }
            attempts += 1;
        }
        None
    }

    /// Builds the coinbase transaction that pays the reward and `fees` to
    /// `address`, with `signature` as the filler of its only input.
    pub fn coinbase_with_filler(fees: u64, address: [u8; 32], signature: [u8; 64]) -> (tx: Tx)
        requires
            REWARD + fees <= u64::MAX,
        ensures
            is_coinbase(tx@, fees, address),
            tx@.inputs[0].signature == signature,
    {
        let mut inputs: Vec<Input> = Vec::new();
        let mut outputs: Vec<Output> = Vec::new();
        let coinbase_input = Input { txid: [0u8; 32], signature };
        let coinbase_output = Output { amount: REWARD + fees, address };
        inputs.push(coinbase_input);
        outputs.push(coinbase_output);
        let txid = Tx::generate_txid(&inputs, &outputs);
        let tx = Tx { txid, inputs, outputs };
        assert(tx@.inputs[0].txid@ =~= Seq::new(32, |i: int| 0u8));
        assert(tx@.outputs =~= seq![coinbase_output]);
        tx
    }

    /// Builds the coinbase transaction that pays the reward and `fees` to
    /// `address`. Its input carries 64 random bytes, so that two coinbase
    /// transactions for the same amount and address get different ids.
    pub fn generate_coinbase(fees: u64, address: [u8; 32]) -> (tx: Tx)
        requires
            REWARD + fees <= u64::MAX,
        ensures
            is_coinbase(tx@, fees, address),
    {
        let mut signature: [u8; 64] = [0u8; 64];
        let mut i: usize = 0;
        while i < 64
            invariant
                i <= 64,
            decreases 64 - i,
        {
            signature[i] = rand::random::<u8>();
            i += 1;
        }
        Miner::coinbase_with_filler(fees, address, signature)
    }

    /// Assembles the block that follows `consensus` from a hash and nonce
    /// found for it, the time of assembly and the transactions it carries.
    pub fn assemble_candidate(
        consensus: &Block,
        hash: [u8; 32],
        nonce: u64,
        time: u64,
        transactions: Vec<Tx>,
    ) -> (candidate: Block)
        requires
            consensus.index < u32::MAX,
        ensures
            candidate@ == (BlockModel {
                index: (consensus.index + 1) as u32,
                hash,
                previous_hash: consensus.hash,
                transactions: tx_models(transactions@),
                time,
                nonce,
                target: consensus.target,
            }),
    {
        Block {
            index: consensus.index + 1,
            hash,
            previous_hash: consensus.hash,
            time,
            target: consensus.target,
            nonce,
            transactions,
        }
    }

    /// Mines a block on top of `consensus` that pays the reward to
    /// `address`: searches for a valid hash with at most `max_attempts`
    /// nonces, then stamps the block with the clock's time and gives it the
    /// coinbase as its only transaction.
    pub fn generate_candidate_block(
        consensus: &Block,
        address: [u8; 32],
        max_attempts: u64,
    ) -> (mined: Result<Block, MineError>)
        ensures
            mined matches Ok(candidate) ==> is_candidate(candidate@, consensus@, address),
            mined == Err::<Block, MineError>(MineError::IndexExhausted) <==> consensus.index
                == u32::MAX,
            consensus.index < u32::MAX && max_attempts == 0 ==> mined == Err::<Block, MineError>(
                MineError::NoValidHash,
            ),
            consensus.index < u32::MAX && max_attempts > 0 && consensus.target == u64::MAX
                ==> mined != Err::<Block, MineError>(MineError::NoValidHash),
    {
        if consensus.index == u32::MAX {
            return Err(MineError::IndexExhausted);
        }
        let found = Miner::gen_valid_hash(
            consensus.index + 1,
            consensus.hash,
            consensus.target,
            max_attempts,
        );
        let (hash, nonce) = match found {
            Some(pair) => pair,
            None => {
                return Err(MineError::NoValidHash);
            },
        };
        let mut transactions: Vec<Tx> = Vec::new();
        transactions.push(Miner::generate_coinbase(0, address));
        let time = match since_epoch() {
            Some(elapsed) => whole_seconds(elapsed),
            None => {
                return Err(MineError::ClockBeforeEpoch);
            },
        };
        Ok(Miner::assemble_candidate(consensus, hash, nonce, time, transactions))
    }
}

} // verus!
