//! What the gossip relay decides.
//!
//! The transport itself, with its sockets, peers and timers, lives outside
//! this library. It reports what happened as an [`Event`]; the functions
//! here say what a node does with it, and what it does after an attempt to
//! publish.

use crate::block::{Block, BlockModel};
use crate::consensus::Merge;
use crate::wire::{block_json, is_block_json, starts_with_block, DecodeError};
use vstd::prelude::*;

verus! {

/// How many blocks the queue between choosing a block and publishing it
/// holds.
pub const QUEUE_CAPACITY: usize = 32;

/// How long one poll of the transport waits for an event, in seconds.
pub const POLL_TIMEOUT_SECS: u64 = 5;

/// How long a miner waits between two rounds of publishing, in seconds.
pub const MINER_PUBLISH_DELAY_SECS: u64 = 1;

/// The topic that all blocks are published on.
pub fn consensus_topic() -> (topic: &'static str)
    ensures
        topic@ == "consensus-block"@,
{
    "consensus-block"
}

/// What one poll of the transport came back with.
#[derive(Debug, PartialEq, Eq)]
pub enum Event {
    /// A message arrived on the topic, with this payload.
    Message(Vec<u8>),
    /// Peers were found; the transport has added them.
    PeersDiscovered,
    /// Peers went away; the transport has dropped them.
    PeersExpired,
    /// The transport started to listen on an address.
    Listening,
    /// Anything else the transport reports.
    Other,
    /// Nothing happened before the poll timed out.
    TimedOut,
}

/// What a poll means to the chain: a block to merge, nothing, or a payload
/// that is no block. Only a message can carry a block; a poll that timed
/// out counts as one in which nothing happened.
pub fn handle_event(event: &Event) -> (polled: Result<Option<Block>, DecodeError>)
    ensures
        match *event {
            Event::Message(payload) => {
                &&& polled is Ok <==> is_block_json(payload@)
                &&& polled matches Ok(found) ==> (found matches Some(block) && payload@
                    == block_json(block@))
                &&& forall|model: BlockModel|
                    payload@ == #[trigger] block_json(model) ==> (polled matches Ok(Some(block))
                        && block@ == model)
                &&& polled == Err::<Option<Block>, DecodeError>(DecodeError::Malformed)
                    <==> !starts_with_block(payload@)
            },
            _ => polled matches Ok(None),
        },
{
    match event {
        Event::Message(payload) => {
            match Block::from_json(payload.as_slice()) {
                Ok(block) => Ok(Some(block)),
                Err(error) => Err(error),
            }
        },
        _ => Ok(None),
    }
}

/// What a node did with one poll of the transport.
#[derive(Clone, Copy, Debug, PartialEq, Eq, Structural)]
pub enum Received {
    /// A block arrived and went through the merge rule, with this result.
    Merged(Merge),
    /// No block arrived.
    Idle,
    /// A message arrived whose payload is no block. It was dropped.
    Undecodable(DecodeError),
}

/// The role a process plays in the network.
#[derive(Clone, Copy, Debug, PartialEq, Eq, Structural)]
pub enum Role {
    /// Mines blocks and follows a single tip.
    Miner,
    /// Keeps the whole chain.
    Node,
}

/// How one round of publishing ended.
#[derive(Clone, Copy, Debug, PartialEq, Eq, Structural)]
pub enum Published {
    /// The block was queued and published.
    Sent,
    /// The queue was closed: nobody takes blocks off it any more.
    QueueClosed,
    /// The block was queued, but the network did not take it.
    Rejected,
}

/// What to do after one round of publishing.
#[derive(Clone, Copy, Debug, PartialEq, Eq, Structural)]
pub struct NextRound {
    /// How the round ended, for the log.
    pub outcome: Published,
    /// How many seconds to wait before the next round.
    pub delay_secs: u64,
}

/// Decides what follows a round of publishing. `enqueued` says whether the
/// block got onto the queue, `published` whether the network then took it.
/// No failure ends the loop: a miner starts the next round after a fixed
/// delay, a node at once.
pub fn after_publish(role: Role, enqueued: bool, published: bool) -> (next: NextRound)
    ensures
        next.outcome == (if !enqueued {
            Published::QueueClosed
        } else if published {
            Published::Sent
        } else {
            Published::Rejected
        }),
        next.delay_secs == (if role == Role::Miner {
            MINER_PUBLISH_DELAY_SECS
        } else {
            0
        }),
{
    let outcome = if !enqueued {
        Published::QueueClosed
    } else if published {
        Published::Sent
    } else {
        Published::Rejected
    };
    let delay_secs = match role {
        Role::Miner => MINER_PUBLISH_DELAY_SECS,
        Role::Node => 0,
    };
    NextRound { outcome, delay_secs }
}

} // verus!
