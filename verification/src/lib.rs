//! A minimal proof-of-work chain.
//!
//! A miner searches for a nonce that makes a block's hash small enough,
//! gossips the block it found, and follows the highest block it hears of.
//! This library holds the rules of that game, each with a contract that
//! says what it computes:
//!
//! - [`hashing`]: the hash of a block and the difficulty test;
//! - [`transactions`], [`input`], [`output`]: transactions and their ids;
//! - [`block`]: blocks and the genesis block;
//! - [`consensus`]: the merge rule that picks the tip;
//! - [`blockchain`], [`mempool`]: the chain and the pool a full node keeps;
//! - [`json`], [`wire`]: the text blocks travel in, and its exact decoder;
//! - [`network`]: what a node does with an event of the gossip transport;
//! - [`miner`], [`node`]: the two roles, as state and the steps that change
//!   it;
//! - [`outside`]: the hash, the random numbers and the clock, which are
//!   taken on trust.
//!
//! Nothing here waits, locks or talks to the network. A program that does
//! holds a [`miner::Miner`] or a [`node::Node`] behind one lock and calls a
//! step with the lock held: each step reads the tip and changes it in one
//! go. The search for a nonce works on a copy of the tip and needs no lock.

pub mod outside;
pub mod hashing;
pub mod input;
pub mod output;
pub mod transactions;
pub mod block;
pub mod consensus;
pub mod blockchain;
pub mod mempool;
pub mod json;
pub mod wire;
pub mod network;
pub mod miner;
pub mod node;
