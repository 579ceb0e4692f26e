use powchain::block::Block;
use powchain::input::Input;
use powchain::miner::Miner;
use powchain::output::Output;
use powchain::transactions::Tx;
use powchain::wire::DecodeError;
use serde_json::{Number, Value};

fn number(n: u64) -> Value {
    Value::Number(Number::from(n))
}

fn bytes(bytes: &[u8]) -> Value {
    Value::Array(bytes.iter().map(|byte| number(*byte as u64)).collect())
}

fn object(fields: Vec<(&str, Value)>) -> Value {
    let mut map = serde_json::Map::new();
    for (key, value) in fields {
        map.insert(key.to_string(), value);
    }
    Value::Object(map)
}

fn input_value(input: &Input) -> Value {
    object(vec![("txid", bytes(&input.txid)), ("signature", bytes(&input.signature))])
}

fn output_value(output: &Output) -> Value {
    object(vec![("amount", number(output.amount)), ("address", bytes(&output.address))])
}

fn tx_value(tx: &Tx) -> Value {
    object(vec![
        ("txid", bytes(&tx.txid)),
        ("inputs", Value::Array(tx.inputs.iter().map(input_value).collect())),
        ("outputs", Value::Array(tx.outputs.iter().map(output_value).collect())),
    ])
}

fn block_value(block: &Block) -> Value {
    object(vec![
        ("index", number(block.index as u64)),
        ("hash", bytes(&block.hash)),
        ("previous_hash", bytes(&block.previous_hash)),
        ("transactions", Value::Array(block.transactions.iter().map(tx_value).collect())),
        ("time", number(block.time)),
        ("nonce", number(block.nonce)),
        ("target", number(block.target)),
    ])
}

fn sample_blocks() -> Vec<Block> {
    let genesis = Block::genesis();
    let coinbase = Miner::generate_coinbase(0, [0xbb; 32]);
    let candidate = Miner::assemble_candidate(&genesis, [7; 32], 99, 1_700_000_000, vec![coinbase]);
    let transfer = Tx::new(
        vec![
            Input { txid: [1; 32], signature: [2; 64] },
            Input { txid: [255; 32], signature: [100; 64] },
        ],
        vec![Output { amount: u64::MAX, address: [4; 32] }, Output { amount: 0, address: [0; 32] }],
    );
    let busy = Block {
        index: u32::MAX,
        hash: [200; 32],
        previous_hash: [10; 32],
        transactions: vec![Miner::generate_coinbase(5, [1; 32]), transfer, Tx::new(vec![], vec![])],
        time: u64::MAX,
        nonce: 18_446_744_073_709_551_614,
        target: 1,
    };
    vec![genesis, candidate, busy]
}

#[test]
fn wire_text_is_what_a_json_writer_produces() {
    for block in sample_blocks() {
        let expected = serde_json::to_vec(&block_value(&block)).unwrap();
        assert_eq!(block.to_json(), expected);
    }
}

#[test]
fn wire_text_is_read_by_a_json_parser() {
    for block in sample_blocks() {
        let parsed: Value = serde_json::from_slice(&block.to_json()).unwrap();
        assert_eq!(parsed, block_value(&block));
        assert_eq!(parsed["index"].as_u64(), Some(block.index as u64));
        assert_eq!(parsed["nonce"].as_u64(), Some(block.nonce));
        assert_eq!(parsed["transactions"].as_array().unwrap().len(), block.transactions.len());
        let hash: Vec<u64> =
            parsed["hash"].as_array().unwrap().iter().map(|v| v.as_u64().unwrap()).collect();
        assert_eq!(hash.len(), 32);
        assert!(hash.iter().zip(block.hash.iter()).all(|(a, b)| *a == *b as u64));
    }
}

#[test]
fn text_from_a_json_writer_is_decoded() {
    for block in sample_blocks() {
        let payload = serde_json::to_vec(&block_value(&block)).unwrap();
        assert_eq!(Block::from_json(&payload), Ok(block));
    }
}

#[test]
fn pretty_printed_json_is_not_the_wire_text() {
    let genesis = Block::genesis();
    let pretty = serde_json::to_vec_pretty(&block_value(&genesis)).unwrap();
    assert_eq!(Block::from_json(&pretty), Err(DecodeError::Malformed));
}

#[test]
fn text_that_is_no_json_is_not_decoded() {
    let payload = Block::genesis().to_json();
    for cut in [1, payload.len() / 3, payload.len() - 1] {
        let truncated = &payload[..cut];
        assert!(serde_json::from_slice::<Value>(truncated).is_err());
        assert_eq!(Block::from_json(truncated), Err(DecodeError::Malformed));
    }
}
