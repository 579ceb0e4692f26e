use powchain::input::Input;
use powchain::mempool::Mempool;
use powchain::output::Output;
use powchain::transactions::Tx;

fn transfer(seed: u8) -> Tx {
    Tx::new(
        vec![Input { txid: [seed; 32], signature: [seed; 64] }],
        vec![Output { amount: seed as u64, address: [seed; 32] }],
    )
}

#[test]
fn mempool_starts_empty() {
    let pool = Mempool::new();
    assert_eq!(pool.len(), 0);
    assert!(!pool.contains(&[0u8; 32]));
}

#[test]
fn mempool_holds_what_was_inserted() {
    let mut pool = Mempool::new();
    let first = transfer(1);
    let second = transfer(2);
    assert!(pool.insert(first.clone()));
    assert!(pool.insert(second.clone()));
    assert_eq!(pool.len(), 2);
    assert!(pool.contains(&first.txid));
    assert!(pool.contains(&second.txid));
    assert!(!pool.contains(&transfer(3).txid));
}

#[test]
fn mempool_keeps_one_transaction_for_each_id() {
    let mut pool = Mempool::new();
    let tx = transfer(1);
    assert!(pool.insert(tx.clone()));
    assert!(!pool.insert(tx.clone()));
    assert_eq!(pool.len(), 1);
    let mut forged = transfer(9);
    forged.txid = tx.txid;
    assert!(!pool.insert(forged));
    assert_eq!(pool.len(), 1);
}
