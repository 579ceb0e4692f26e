//! Transaction outputs.

use crate::hashing::be_bytes_u64;
use vstd::prelude::*;

verus! {

/// An amount paid to an address.
#[derive(Clone, Copy, Debug, PartialEq, Eq, Hash)]
pub struct Output {
    pub amount: u64,
    pub address: [u8; 32],
}

/// The bytes of an output as they enter a transaction id.
pub open spec fn output_bytes(output: Output) -> Seq<u8> {
    be_bytes_u64(output.amount) + output.address@
}

} // verus!
