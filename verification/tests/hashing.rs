use powchain::hashing::{hash_with_nonce, push_be_u32, push_be_u64, push_bytes, same_hash};
use powchain::miner::Miner;

fn sample_hash() -> [u8; 32] {
    let mut hash = [0u8; 32];
    for (i, byte) in hash.iter_mut().enumerate() {
        *byte = (i as u8) + 1;
    }
    hash
}

#[test]
fn h2_u64_reads_eight_bytes_big_endian() {
    assert_eq!(Miner::h2_u64(sample_hash()), 0x0102_0304_0506_0708);
}

#[test]
fn h2_u64_of_zero_hash_is_zero() {
    assert_eq!(Miner::h2_u64([0u8; 32]), 0);
}

#[test]
fn h2_u64_of_full_hash_is_max() {
    assert_eq!(Miner::h2_u64([0xff; 32]), u64::MAX);
}

#[test]
fn h2_u64_ignores_bytes_after_the_eighth() {
    let mut hash = [0u8; 32];
    hash[8] = 0xff;
    hash[31] = 0xff;
    assert_eq!(Miner::h2_u64(hash), 0);
}

#[test]
fn h2_u64_agrees_with_from_be_bytes() {
    let hash = hash_with_nonce(7, [3u8; 32], 99);
    let mut first = [0u8; 8];
    first.copy_from_slice(&hash[..8]);
    assert_eq!(Miner::h2_u64(hash), u64::from_be_bytes(first));
}

#[test]
fn meets_target_is_inclusive() {
    let hash = sample_hash();
    let value = 0x0102_0304_0506_0708u64;
    assert!(Miner::meets_target(hash, value));
    assert!(Miner::meets_target(hash, value + 1));
    assert!(!Miner::meets_target(hash, value - 1));
}

#[test]
fn meets_target_is_monotonic_in_the_target() {
    let hash = hash_with_nonce(1, [8u8; 32], 12345);
    let value = Miner::h2_u64(hash);
    for shift in 0..64 {
        let target = 1u64 << shift;
        assert_eq!(Miner::meets_target(hash, target), value <= target);
        if Miner::meets_target(hash, target) && shift < 63 {
            assert!(Miner::meets_target(hash, target << 1));
        }
    }
}

#[test]
fn every_hash_meets_the_largest_target() {
    assert!(Miner::meets_target([0xff; 32], u64::MAX));
    assert!(!Miner::meets_target([0xff; 32], u64::MAX - 1));
}

#[test]
fn push_be_u32_writes_most_significant_byte_first() {
    let mut out = vec![9u8];
    push_be_u32(&mut out, 0x0102_0304);
    assert_eq!(out, vec![9, 1, 2, 3, 4]);
    assert_eq!(out[1..], 0x0102_0304u32.to_be_bytes());
}

#[test]
fn push_be_u64_writes_most_significant_byte_first() {
    let mut out = Vec::new();
    push_be_u64(&mut out, 0x0102_0304_0506_0708);
    assert_eq!(out, vec![1, 2, 3, 4, 5, 6, 7, 8]);
    let mut out = Vec::new();
    push_be_u64(&mut out, u64::MAX - 1);
    assert_eq!(out, (u64::MAX - 1).to_be_bytes().to_vec());
}

#[test]
fn push_bytes_appends() {
    let mut out = vec![1u8, 2];
    push_bytes(&mut out, &[3, 4, 5]);
    assert_eq!(out, vec![1, 2, 3, 4, 5]);
    push_bytes(&mut out, &[]);
    assert_eq!(out, vec![1, 2, 3, 4, 5]);
}

#[test]
fn same_hash_compares_every_byte() {
    let a = sample_hash();
    let mut b = a;
    assert!(same_hash(&a, &b));
    b[31] ^= 1;
    assert!(!same_hash(&a, &b));
    b = a;
    b[0] ^= 1;
    assert!(!same_hash(&a, &b));
}

#[test]
fn block_hash_is_blake3_of_index_previous_hash_and_nonce() {
    let index: u32 = 0x0a0b_0c0d;
    let previous = sample_hash();
    let nonce: u64 = 0x1122_3344_5566_7788;
    let mut preimage = Vec::new();
    preimage.extend_from_slice(&index.to_be_bytes());
    preimage.extend_from_slice(&previous);
    preimage.extend_from_slice(&nonce.to_be_bytes());
    assert_eq!(preimage.len(), 44);
    let expected = *blake3::hash(&preimage).as_bytes();
    assert_eq!(hash_with_nonce(index, previous, nonce), expected);
}

#[test]
fn block_hash_agrees_with_incremental_hashing() {
    let index: u32 = 1;
    let previous = [8u8; 32];
    let nonce: u64 = 420;
    let mut hasher = blake3::Hasher::new();
    hasher.update(&index.to_be_bytes());
    hasher.update(&previous);
    hasher.update(&nonce.to_be_bytes());
    assert_eq!(hash_with_nonce(index, previous, nonce), *hasher.finalize().as_bytes());
}

#[test]
fn block_hash_depends_on_each_argument() {
    let base = hash_with_nonce(1, [8u8; 32], 420);
    assert_ne!(base, hash_with_nonce(2, [8u8; 32], 420));
    assert_ne!(base, hash_with_nonce(1, [9u8; 32], 420));
    assert_ne!(base, hash_with_nonce(1, [8u8; 32], 421));
    assert_ne!(base, [8u8; 32]);
}

#[test]
fn hashing_again_with_the_same_nonce_gives_the_same_hash() {
    for index in 0..20u32 {
        let previous = [index as u8; 32];
        let (hash, nonce) = Miner::gen_hash_nonce(index, previous);
        assert_eq!(hash_with_nonce(index, previous, nonce), hash);
        assert_eq!(hash_with_nonce(index, previous, nonce), hash);
        for shift in [0u32, 20, 40, 60, 63] {
            let target = 1u64 << shift;
            assert_eq!(
                Miner::meets_target(hash, target),
                Miner::meets_target(hash_with_nonce(index, previous, nonce), target)
            );
        }
    }
}

#[test]
fn gen_hash_nonce_draws_fresh_nonces() {
    let (_, first) = Miner::gen_hash_nonce(1, [8u8; 32]);
    let mut differs = false;
    for _ in 0..8 {
        let (_, next) = Miner::gen_hash_nonce(1, [8u8; 32]);
        differs = differs || next != first;
    }
    assert!(differs);
}

#[test]
fn check_nonce_returns_the_hash_when_it_meets_the_target() {
    let previous = [8u8; 32];
    let hash = hash_with_nonce(1, previous, 5);
    let value = Miner::h2_u64(hash);
    assert_eq!(Miner::check_nonce(1, previous, value, 5), Some(hash));
    assert_eq!(Miner::check_nonce(1, previous, u64::MAX, 5), Some(hash));
    if value > 0 {
        assert_eq!(Miner::check_nonce(1, previous, value - 1, 5), None);
    }
}

#[test]
fn gen_valid_hash_without_attempts_finds_nothing() {
    assert_eq!(Miner::gen_valid_hash(1, [8u8; 32], u64::MAX, 0), None);
}

#[test]
fn gen_valid_hash_against_the_largest_target_succeeds_at_once() {
    let found = Miner::gen_valid_hash(1, [8u8; 32], u64::MAX, 1);
    let (hash, nonce) = found.expect("every hash meets the largest target");
    assert_eq!(hash, hash_with_nonce(1, [8u8; 32], nonce));
}

#[test]
fn gen_valid_hash_returns_a_hash_that_meets_the_target() {
    let target = 1u64 << 56;
    let previous = [8u8; 32];
    let (hash, nonce) = Miner::gen_valid_hash(3, previous, target, u64::MAX).unwrap();
    assert_eq!(hash, hash_with_nonce(3, previous, nonce));
    assert!(Miner::h2_u64(hash) <= target);
    assert!(Miner::meets_target(hash, target));
}

#[test]
fn gen_valid_hash_gives_up_after_the_allowed_attempts() {
    assert_eq!(Miner::gen_valid_hash(1, [8u8; 32], 0, 1000), None);
}

