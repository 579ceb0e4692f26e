use powchain::block::Block;
use powchain::consensus::Merge;
use powchain::miner::Miner;
use powchain::network::{
    after_publish, consensus_topic, handle_event, Event, NextRound, Published, Received, Role,
    MINER_PUBLISH_DELAY_SECS, POLL_TIMEOUT_SECS, QUEUE_CAPACITY,
};
use powchain::node::Node;
use powchain::wire::DecodeError;

fn successor_of(tip: &Block, seed: u8) -> Block {
    Block {
        index: tip.index + 1,
        hash: [seed; 32],
        previous_hash: tip.hash,
        transactions: vec![Miner::generate_coinbase(0, [seed; 32])],
        time: 1_700_000_000,
        nonce: seed as u64,
        target: tip.target,
    }
}

#[test]
fn relay_constants() {
    assert_eq!(consensus_topic(), "consensus-block");
    assert_eq!(QUEUE_CAPACITY, 32);
    assert_eq!(POLL_TIMEOUT_SECS, 5);
    assert_eq!(MINER_PUBLISH_DELAY_SECS, 1);
}

#[test]
fn a_message_with_a_block_is_decoded() {
    let block = successor_of(&Block::genesis(), 5);
    let event = Event::Message(block.to_json());
    assert_eq!(handle_event(&event), Ok(Some(block)));
}

#[test]
fn a_message_without_a_block_is_an_error() {
    assert_eq!(handle_event(&Event::Message(b"hello".to_vec())), Err(DecodeError::Malformed));
    assert_eq!(handle_event(&Event::Message(Vec::new())), Err(DecodeError::Malformed));
    let mut payload = Block::genesis().to_json();
    payload.push(b'\n');
    assert_eq!(handle_event(&Event::Message(payload)), Err(DecodeError::TrailingBytes));
}

#[test]
fn other_events_carry_no_block() {
    for event in [
        Event::PeersDiscovered,
        Event::PeersExpired,
        Event::Listening,
        Event::Other,
        Event::TimedOut,
    ] {
        assert_eq!(handle_event(&event), Ok(None));
    }
}

#[test]
fn miner_promotes_a_received_successor() {
    let mut miner = Miner::new([0xbb; 32]);
    let block = successor_of(miner.current_tip(), 33);
    let outcome = miner.receive(&Event::Message(block.to_json()));
    assert_eq!(outcome, Received::Merged(Merge::Promoted));
    assert_eq!(miner.current_tip().index, 1);
    assert_eq!(miner.current_tip().hash, block.hash);
    assert_eq!(miner.current_tip().previous_hash, block.previous_hash);
    assert_eq!(miner.current_tip().previous_hash, Block::genesis().hash);
}

#[test]
fn miner_drops_a_received_duplicate() {
    let mut miner = Miner::new([0xbb; 32]);
    let block = successor_of(miner.current_tip(), 33);
    let payload = block.to_json();
    assert_eq!(miner.receive(&Event::Message(payload.clone())), Received::Merged(Merge::Promoted));
    let before = miner.current_tip().clone();
    assert_eq!(miner.receive(&Event::Message(payload)), Received::Merged(Merge::Stale));
    assert_eq!(*miner.current_tip(), before);
}

#[test]
fn miner_survives_a_truncated_payload() {
    let mut miner = Miner::new([0xbb; 32]);
    let first = successor_of(miner.current_tip(), 33);
    miner.receive(&Event::Message(first.to_json()));
    let before = miner.current_tip().clone();
    let mut payload = successor_of(&first, 34).to_json();
    payload.truncate(payload.len() / 2);
    let outcome = miner.receive(&Event::Message(payload));
    assert_eq!(outcome, Received::Undecodable(DecodeError::Malformed));
    assert_eq!(*miner.current_tip(), before);
    let next = successor_of(&first, 35);
    assert_eq!(miner.receive(&Event::Message(next.to_json())), Received::Merged(Merge::Promoted));
    assert_eq!(miner.current_tip().index, 2);
}

#[test]
fn miner_is_idle_without_a_message() {
    let mut miner = Miner::new([0xbb; 32]);
    for event in [
        Event::TimedOut,
        Event::PeersDiscovered,
        Event::PeersExpired,
        Event::Listening,
        Event::Other,
    ] {
        assert_eq!(miner.receive(&event), Received::Idle);
        assert_eq!(*miner.current_tip(), Block::genesis());
    }
}

#[test]
fn node_appends_a_received_successor() {
    let mut node = Node::new();
    let block = successor_of(node.current_tip(), 44);
    let outcome = node.receive(&Event::Message(block.to_json()));
    assert_eq!(outcome, Received::Merged(Merge::Promoted));
    assert_eq!(*node.current_tip(), block);
    assert_eq!(node.chain().len(), 2);
}

#[test]
fn node_survives_a_truncated_payload() {
    let mut node = Node::new();
    let mut payload = successor_of(node.current_tip(), 44).to_json();
    payload.pop();
    let outcome = node.receive(&Event::Message(payload));
    assert_eq!(outcome, Received::Undecodable(DecodeError::Malformed));
    assert_eq!(node.chain().len(), 1);
    assert_eq!(*node.current_tip(), Block::genesis());
    assert_eq!(node.receive(&Event::TimedOut), Received::Idle);
    assert_eq!(node.chain().len(), 1);
}

#[test]
fn node_reports_stale_and_gap() {
    let mut node = Node::new();
    let one = successor_of(node.current_tip(), 1);
    let two = successor_of(&one, 2);
    assert_eq!(node.receive(&Event::Message(two.to_json())), Received::Merged(Merge::Gap));
    assert_eq!(node.receive(&Event::Message(one.to_json())), Received::Merged(Merge::Promoted));
    assert_eq!(node.receive(&Event::Message(one.to_json())), Received::Merged(Merge::Stale));
    assert_eq!(node.receive(&Event::Message(two.to_json())), Received::Merged(Merge::Promoted));
    assert_eq!(node.chain().len(), 3);
}

#[test]
fn what_follows_a_round_of_publishing() {
    assert_eq!(
        after_publish(Role::Miner, true, true),
        NextRound { outcome: Published::Sent, delay_secs: 1 }
    );
    assert_eq!(
        after_publish(Role::Miner, true, false),
        NextRound { outcome: Published::Rejected, delay_secs: 1 }
    );
    assert_eq!(
        after_publish(Role::Miner, false, false),
        NextRound { outcome: Published::QueueClosed, delay_secs: 1 }
    );
    assert_eq!(
        after_publish(Role::Miner, false, true),
        NextRound { outcome: Published::QueueClosed, delay_secs: 1 }
    );
    assert_eq!(
        after_publish(Role::Node, true, true),
        NextRound { outcome: Published::Sent, delay_secs: 0 }
    );
    assert_eq!(
        after_publish(Role::Node, true, false),
        NextRound { outcome: Published::Rejected, delay_secs: 0 }
    );
    assert_eq!(
        after_publish(Role::Node, false, false),
        NextRound { outcome: Published::QueueClosed, delay_secs: 0 }
    );
}
