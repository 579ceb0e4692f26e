use powchain::input::Input;
use powchain::miner::{Miner, REWARD};
use powchain::output::Output;
use powchain::transactions::Tx;

fn sample_input(seed: u8) -> Input {
    Input { txid: [seed; 32], signature: [seed.wrapping_add(1); 64] }
}

fn sample_output(seed: u8) -> Output {
    Output { amount: 1000 + seed as u64, address: [seed; 32] }
}

fn canonical_bytes(inputs: &[Input], outputs: &[Output]) -> Vec<u8> {
    let mut bytes = Vec::new();
    bytes.extend_from_slice(&(inputs.len() as u64).to_be_bytes());
    for input in inputs {
        bytes.extend_from_slice(&input.txid);
        bytes.extend_from_slice(&input.signature);
    }
    bytes.extend_from_slice(&(outputs.len() as u64).to_be_bytes());
    for output in outputs {
        bytes.extend_from_slice(&output.amount.to_be_bytes());
        bytes.extend_from_slice(&output.address);
    }
    bytes
}

#[test]
fn txid_is_the_digest_of_the_canonical_bytes() {
    let inputs = vec![sample_input(1), sample_input(2)];
    let outputs = vec![sample_output(3)];
    let bytes = canonical_bytes(&inputs, &outputs);
    assert_eq!(bytes.len(), 8 + 2 * 96 + 8 + 40);
    assert_eq!(Tx::generate_txid(&inputs, &outputs), *blake3::hash(&bytes).as_bytes());
}

#[test]
fn txid_of_an_empty_transaction() {
    let expected = *blake3::hash(&[0u8; 16]).as_bytes();
    assert_eq!(Tx::generate_txid(&Vec::new(), &Vec::new()), expected);
}

#[test]
fn txid_is_the_same_for_the_same_inputs_and_outputs() {
    let inputs = vec![sample_input(7)];
    let outputs = vec![sample_output(9), sample_output(10)];
    let first = Tx::generate_txid(&inputs, &outputs);
    let second = Tx::generate_txid(&inputs.clone(), &outputs.clone());
    assert_eq!(first, second);
}

#[test]
fn txid_depends_on_inputs_and_outputs() {
    let base = Tx::generate_txid(&vec![sample_input(1)], &vec![sample_output(1)]);
    assert_ne!(base, Tx::generate_txid(&vec![sample_input(2)], &vec![sample_output(1)]));
    assert_ne!(base, Tx::generate_txid(&vec![sample_input(1)], &vec![sample_output(2)]));
    assert_ne!(base, Tx::generate_txid(&vec![], &vec![sample_output(1)]));
    assert_ne!(base, Tx::generate_txid(&vec![sample_input(1)], &vec![]));
}

#[test]
fn txid_tells_the_order_of_inputs() {
    let forward = Tx::generate_txid(&vec![sample_input(1), sample_input(2)], &vec![]);
    let backward = Tx::generate_txid(&vec![sample_input(2), sample_input(1)], &vec![]);
    assert_ne!(forward, backward);
}

#[test]
fn tx_new_derives_the_id() {
    let inputs = vec![sample_input(4)];
    let outputs = vec![sample_output(5)];
    let tx = Tx::new(inputs.clone(), outputs.clone());
    assert_eq!(tx.txid, Tx::generate_txid(&inputs, &outputs));
    assert_eq!(tx.inputs, inputs);
    assert_eq!(tx.outputs, outputs);
}

#[test]
fn tx_clone_keeps_every_field() {
    let tx = Tx::new(vec![sample_input(1), sample_input(2)], vec![sample_output(3)]);
    assert_eq!(tx.clone(), tx);
}

#[test]
fn coinbase_pays_the_reward_to_the_address() {
    let address = [0xbb; 32];
    let tx = Miner::generate_coinbase(0, address);
    assert_eq!(REWARD, 5_000_000);
    assert_eq!(tx.inputs.len(), 1);
    assert_eq!(tx.inputs[0].txid, [0u8; 32]);
    assert_eq!(tx.outputs, vec![Output { amount: 5_000_000, address }]);
    assert_eq!(tx.txid, Tx::generate_txid(&tx.inputs, &tx.outputs));
}

#[test]
fn coinbase_adds_the_fees_to_the_reward() {
    let tx = Miner::generate_coinbase(1234, [1u8; 32]);
    assert_eq!(tx.outputs[0].amount, 5_001_234);
    let tx = Miner::generate_coinbase(u64::MAX - REWARD, [1u8; 32]);
    assert_eq!(tx.outputs[0].amount, u64::MAX);
}

#[test]
fn coinbase_fillers_keep_the_ids_apart() {
    let address = [0xbb; 32];
    let first = Miner::generate_coinbase(0, address);
    let second = Miner::generate_coinbase(0, address);
    assert_eq!(first.outputs, second.outputs);
    assert_eq!(first.inputs[0].txid, second.inputs[0].txid);
    assert_ne!(first.inputs[0].signature, second.inputs[0].signature);
    assert_ne!(first.txid, second.txid);
}

#[test]
fn coinbase_with_a_given_filler_is_reproducible() {
    let address = [0xcd; 32];
    let filler = [0x5a; 64];
    let first = Miner::coinbase_with_filler(7, address, filler);
    let second = Miner::coinbase_with_filler(7, address, filler);
    assert_eq!(first, second);
    assert_eq!(first.inputs, vec![Input { txid: [0u8; 32], signature: filler }]);
    assert_eq!(first.outputs, vec![Output { amount: 5_000_007, address }]);
    let mut other_filler = filler;
    other_filler[63] ^= 1;
    let third = Miner::coinbase_with_filler(7, address, other_filler);
    assert_ne!(first.txid, third.txid);
}
