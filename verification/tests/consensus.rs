use powchain::block::Block;
use powchain::blockchain::Blockchain;
use powchain::consensus::Merge;
use powchain::miner::Miner;
use powchain::node::Node;

fn block(index: u32, seed: u8) -> Block {
    Block {
        index,
        hash: [seed; 32],
        previous_hash: [seed.wrapping_sub(1); 32],
        transactions: Vec::new(),
        time: 1_700_000_000 + index as u64,
        nonce: 1000 + index as u64,
        target: 77,
    }
}

#[test]
fn miner_starts_from_genesis() {
    let miner = Miner::new([0xbb; 32]);
    assert_eq!(miner.address(), [0xbb; 32]);
    assert_eq!(*miner.current_tip(), Block::genesis());
}

#[test]
fn miner_promotes_the_next_block() {
    let mut miner = Miner::new([0xbb; 32]);
    let next = block(1, 21);
    assert_eq!(miner.try_promote(&next), Merge::Promoted);
    let tip = miner.current_tip();
    assert_eq!(tip.index, 1);
    assert_eq!(tip.hash, next.hash);
    assert_eq!(tip.previous_hash, next.previous_hash);
}

#[test]
fn miner_promotion_replaces_index_and_hashes_only() {
    let mut miner = Miner::new([0xbb; 32]);
    let genesis = Block::genesis();
    let next = block(1, 21);
    miner.try_promote(&next);
    let tip = miner.current_tip();
    assert_eq!(tip.time, genesis.time);
    assert_eq!(tip.nonce, genesis.nonce);
    assert_eq!(tip.target, genesis.target);
    assert_eq!(tip.transactions, genesis.transactions);
}

#[test]
fn miner_sets_the_index_and_does_not_add_to_it() {
    let mut miner = Miner::new([0xbb; 32]);
    miner.try_promote(&block(3, 1));
    assert_eq!(miner.current_tip().index, 3);
    miner.try_promote(&block(5, 2));
    assert_eq!(miner.current_tip().index, 5);
}

#[test]
fn miner_drops_stale_blocks() {
    let mut miner = Miner::new([0xbb; 32]);
    miner.try_promote(&block(4, 40));
    let before = miner.current_tip().clone();
    assert_eq!(miner.try_promote(&block(4, 41)), Merge::Stale);
    assert_eq!(*miner.current_tip(), before);
    assert_eq!(miner.try_promote(&block(3, 42)), Merge::Stale);
    assert_eq!(*miner.current_tip(), before);
    assert_eq!(miner.try_promote(&block(0, 43)), Merge::Stale);
    assert_eq!(*miner.current_tip(), before);
}

#[test]
fn miner_drops_a_second_genesis() {
    let mut miner = Miner::new([0xbb; 32]);
    assert_eq!(miner.try_promote(&block(0, 9)), Merge::Stale);
    assert_eq!(*miner.current_tip(), Block::genesis());
}

#[test]
fn miner_ends_at_the_highest_index_in_either_order() {
    let one = block(1, 11);
    let two = block(2, 12);

    let mut in_order = Miner::new([0xbb; 32]);
    assert_eq!(in_order.try_promote(&one), Merge::Promoted);
    assert_eq!(in_order.try_promote(&two), Merge::Promoted);

    let mut reversed = Miner::new([0xbb; 32]);
    assert_eq!(reversed.try_promote(&two), Merge::Promoted);
    assert_eq!(reversed.try_promote(&one), Merge::Stale);

    assert_eq!(in_order.current_tip().index, 2);
    assert_eq!(reversed.current_tip().index, 2);
    assert_eq!(in_order.current_tip(), reversed.current_tip());
    assert_eq!(in_order.current_tip().hash, two.hash);
}

#[test]
fn miner_keeps_its_address_through_promotions() {
    let mut miner = Miner::new([0x42; 32]);
    miner.try_promote(&block(1, 1));
    miner.try_promote(&block(1, 2));
    assert_eq!(miner.address(), [0x42; 32]);
}

#[test]
fn miner_promotes_the_largest_index() {
    let mut miner = Miner::new([0xbb; 32]);
    assert_eq!(miner.try_promote(&block(u32::MAX, 5)), Merge::Promoted);
    assert_eq!(miner.current_tip().index, u32::MAX);
    assert_eq!(miner.try_promote(&block(u32::MAX, 6)), Merge::Stale);
}

#[test]
fn chain_starts_with_genesis() {
    let chain = Blockchain::new();
    assert_eq!(chain.len(), 1);
    assert_eq!(*chain.current_tip(), Block::genesis());
    assert_eq!(chain.get(0), Some(&Block::genesis()));
    assert_eq!(chain.get(1), None);
}

#[test]
fn chain_appends_the_next_block() {
    let mut chain = Blockchain::new();
    let next = block(1, 21);
    assert!(chain.add_block(next.clone()));
    assert_eq!(chain.len(), 2);
    assert_eq!(*chain.current_tip(), next);
    assert_eq!(chain.get(1), Some(&next));
    assert_eq!(chain.get(0), Some(&Block::genesis()));
}

#[test]
fn chain_refuses_blocks_that_do_not_follow_the_tip() {
    let mut chain = Blockchain::new();
    assert!(!chain.add_block(block(2, 1)));
    assert!(!chain.add_block(block(0, 2)));
    assert!(!chain.add_block(block(u32::MAX, 3)));
    assert_eq!(chain.len(), 1);
    assert_eq!(*chain.current_tip(), Block::genesis());
}

#[test]
fn chain_merge_rule_tells_stale_from_gap() {
    let mut chain = Blockchain::new();
    assert_eq!(chain.try_promote(block(1, 1)), Merge::Promoted);
    assert_eq!(chain.try_promote(block(1, 2)), Merge::Stale);
    assert_eq!(chain.try_promote(block(0, 3)), Merge::Stale);
    assert_eq!(chain.try_promote(block(3, 4)), Merge::Gap);
    assert_eq!(chain.len(), 2);
    assert_eq!(chain.try_promote(block(2, 5)), Merge::Promoted);
    assert_eq!(chain.try_promote(block(3, 4)), Merge::Promoted);
    assert_eq!(chain.len(), 4);
    for index in 0..4u32 {
        assert_eq!(chain.get(index).map(|found| found.index), Some(index));
    }
}

#[test]
fn node_starts_with_genesis_and_an_empty_pool() {
    let node = Node::new();
    assert_eq!(node.chain().len(), 1);
    assert_eq!(*node.current_tip(), Block::genesis());
    assert_eq!(node.pool().len(), 0);
    assert!(!node.pool().contains(&[0u8; 32]));
}

#[test]
fn node_keeps_its_pool_through_merges() {
    let mut node = Node::new();
    node.try_promote(block(1, 11));
    node.try_promote(block(5, 12));
    node.try_promote(block(0, 13));
    assert_eq!(node.pool().len(), 0);
    assert_eq!(node.chain().len(), 2);
}

#[test]
fn node_appends_blocks_in_order() {
    let mut node = Node::new();
    let one = block(1, 11);
    let two = block(2, 12);
    assert_eq!(node.try_promote(one.clone()), Merge::Promoted);
    assert_eq!(*node.current_tip(), one);
    assert_eq!(node.try_promote(two.clone()), Merge::Promoted);
    assert_eq!(*node.current_tip(), two);
    assert_eq!(node.chain().len(), 3);
}

#[test]
fn node_drops_a_block_that_skips_ahead() {
    let mut node = Node::new();
    let one = block(1, 11);
    let two = block(2, 12);
    assert_eq!(node.try_promote(two.clone()), Merge::Gap);
    assert_eq!(*node.current_tip(), Block::genesis());
    assert_eq!(node.try_promote(one.clone()), Merge::Promoted);
    assert_eq!(node.current_tip().index, 1);
    assert_eq!(node.try_promote(two.clone()), Merge::Promoted);
    assert_eq!(node.current_tip().index, 2);
}

#[test]
fn node_drops_stale_blocks() {
    let mut node = Node::new();
    node.try_promote(block(1, 11));
    assert_eq!(node.try_promote(block(1, 99)), Merge::Stale);
    assert_eq!(node.try_promote(block(0, 98)), Merge::Stale);
    assert_eq!(node.current_tip().hash, [11u8; 32]);
    assert_eq!(node.chain().len(), 2);
}
