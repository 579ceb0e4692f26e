//! Transaction inputs.

use vstd::prelude::*;

verus! {

/// A reference to the output being spent, with the value that authorizes it.
///
/// In a coinbase input `txid` is all zero and `signature` is random filler:
/// it authorizes nothing and only keeps the ids of two coinbase transactions
/// apart.
#[derive(Clone, Copy, Debug, PartialEq, Eq, Hash)]
pub struct Input {
    pub txid: [u8; 32],
    pub signature: [u8; 64],
}

/// The bytes of an input as they enter a transaction id.
pub open spec fn input_bytes(input: Input) -> Seq<u8> {
    input.txid@ + input.signature@
}

} // verus!
