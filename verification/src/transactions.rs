//! Transactions and their ids.
//!
//! A transaction id is the BLAKE3 digest of the transaction's canonical
//! bytes: the number of inputs, each input, the number of outputs, each
//! output, with numbers as eight big-endian bytes.

use crate::hashing::{be_bytes_u64, push_be_u64, push_bytes};
use crate::outside::{blake3_digest, blake3_hash};
use crate::input::{input_bytes, Input};
use crate::output::{output_bytes, Output};
use vstd::prelude::*;

verus! {

/// A transfer of value: what it spends, what it pays, and the id derived
/// from both.
#[derive(Debug, PartialEq, Eq)]
pub struct Tx {
    pub txid: [u8; 32],
    pub inputs: Vec<Input>,
    pub outputs: Vec<Output>,
}

/// The mathematical value of a transaction.
pub struct TxModel {
    pub txid: [u8; 32],
    pub inputs: Seq<Input>,
    pub outputs: Seq<Output>,
}

impl View for Tx {
    type V = TxModel;

    open spec fn view(&self) -> TxModel {
        TxModel { txid: self.txid, inputs: self.inputs@, outputs: self.outputs@ }
    }
}

/// The bytes of a list of inputs, one after the other.
pub open spec fn inputs_bytes(inputs: Seq<Input>) -> Seq<u8>
    decreases inputs.len(),
{
    if inputs.len() == 0 {
        Seq::empty()
    } else {
        inputs_bytes(inputs.drop_last()) + input_bytes(inputs.last())
    }
}

/// The bytes of a list of outputs, one after the other.
pub open spec fn outputs_bytes(outputs: Seq<Output>) -> Seq<u8>
    decreases outputs.len(),
{
    if outputs.len() == 0 {
        Seq::empty()
    } else {
        outputs_bytes(outputs.drop_last()) + output_bytes(outputs.last())
    }
}

/// The canonical bytes of a transaction body.
pub open spec fn tx_preimage(inputs: Seq<Input>, outputs: Seq<Output>) -> Seq<u8> {
    be_bytes_u64(inputs.len() as u64) + inputs_bytes(inputs) + be_bytes_u64(outputs.len() as u64)
        + outputs_bytes(outputs)
}

/// The id of a transaction with the given inputs and outputs.
pub open spec fn txid_of(inputs: Seq<Input>, outputs: Seq<Output>) -> Seq<u8> {
    blake3_digest(tx_preimage(inputs, outputs))
}

/// Whether two byte strings are a collision of the hash: different bytes
/// with the same digest.
pub open spec fn is_collision(a: Seq<u8>, b: Seq<u8>) -> bool {
    a != b && blake3_digest(a) == blake3_digest(b)
}

/// The id is a function of the inputs and outputs: the same inputs and
/// outputs give the same id.
pub proof fn lemma_txid_is_deterministic(
    inputs: Seq<Input>,
    outputs: Seq<Output>,
    other_inputs: Seq<Input>,
    other_outputs: Seq<Output>,
)
    requires
        inputs == other_inputs,
        outputs == other_outputs,
    ensures
        txid_of(inputs, outputs) == txid_of(other_inputs, other_outputs),
{
}

impl TxModel {
    /// Whether the id is the one derived from the inputs and outputs.
    pub open spec fn id_matches(self) -> bool {
        self.txid@ == txid_of(self.inputs, self.outputs)
    }
}

impl Tx {
    /// Derives the id of a transaction from its inputs and outputs.
    pub fn generate_txid(inputs: &Vec<Input>, outputs: &Vec<Output>) -> (txid: [u8; 32])
        ensures
            txid@ == txid_of(inputs@, outputs@),
    {
        let mut bytes: Vec<u8> = Vec::new();
        push_be_u64(&mut bytes, inputs.len() as u64);
        let ghost head = bytes@;
        let mut i: usize = 0;
        while i < inputs.len()
            invariant
                i <= inputs.len(),
                bytes@ == head + inputs_bytes(inputs@.take(i as int)),
            decreases inputs.len() - i,
        {
            push_bytes(&mut bytes, inputs[i].txid.as_slice());
            push_bytes(&mut bytes, inputs[i].signature.as_slice());
            proof {
                assert(inputs@.take(i + 1).drop_last() == inputs@.take(i as int));
            }
            i += 1;
        }
        assert(inputs@.take(inputs.len() as int) == inputs@);
        push_be_u64(&mut bytes, outputs.len() as u64);
        let ghost head = bytes@;
        let mut j: usize = 0;
        while j < outputs.len()
            invariant
                j <= outputs.len(),
                bytes@ == head + outputs_bytes(outputs@.take(j as int)),
            decreases outputs.len() - j,
        {
            push_be_u64(&mut bytes, outputs[j].amount);
            push_bytes(&mut bytes, outputs[j].address.as_slice());
            proof {
                assert(outputs@.take(j + 1).drop_last() == outputs@.take(j as int));
            }
            j += 1;
        }
        assert(outputs@.take(outputs.len() as int) == outputs@);
        blake3_hash(bytes.as_slice())
    }

    /// Builds a transaction whose id is derived from its inputs and outputs.
    pub fn new(inputs: Vec<Input>, outputs: Vec<Output>) -> (tx: Tx)
        ensures
            tx@.inputs == inputs@,
            tx@.outputs == outputs@,
            tx@.id_matches(),
    {
        let txid = Tx::generate_txid(&inputs, &outputs);
        Tx { txid, inputs, outputs }
    }
}

impl Clone for Tx {
    fn clone(&self) -> (copy: Tx)
        ensures
            copy@ == self@,
    {
        let mut inputs: Vec<Input> = Vec::new();
        let mut i: usize = 0;
        while i < self.inputs.len()
            invariant
                i <= self.inputs.len(),
                inputs@ == self.inputs@.take(i as int),
            decreases self.inputs.len() - i,
        {
            inputs.push(self.inputs[i]);
            i += 1;
        }
        let mut outputs: Vec<Output> = Vec::new();
        let mut j: usize = 0;
        while j < self.outputs.len()
            invariant
                j <= self.outputs.len(),
                outputs@ == self.outputs@.take(j as int),
            decreases self.outputs.len() - j,
        {
            outputs.push(self.outputs[j]);
            j += 1;
        }
        assert(self.inputs@.take(self.inputs.len() as int) == self.inputs@);
        assert(self.outputs@.take(self.outputs.len() as int) == self.outputs@);
        Tx { txid: self.txid, inputs, outputs }
    }
}

} // verus!
