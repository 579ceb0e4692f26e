//! Block hashing and the difficulty test.
//!
//! A block is identified by the BLAKE3 digest of its index, the hash of the
//! block before it and a nonce, laid out as fixed-width big-endian fields.
//! A digest proves work when its leading eight bytes, read as one big-endian
//! number, do not exceed the target.

use crate::outside::{blake3_digest, blake3_hash};
use vstd::prelude::*;

verus! {

/// The four bytes of `x`, most significant first.
pub open spec fn be_bytes_u32(x: u32) -> Seq<u8> {
    seq![
        (x / 0x100_0000) as u8,
        (x / 0x1_0000 % 0x100) as u8,
        (x / 0x100 % 0x100) as u8,
        (x % 0x100) as u8,
    ]
}

/// The eight bytes of `x`, most significant first.
pub open spec fn be_bytes_u64(x: u64) -> Seq<u8> {
    seq![
        (x / 0x100_0000_0000_0000) as u8,
        (x / 0x1_0000_0000_0000 % 0x100) as u8,
        (x / 0x100_0000_0000 % 0x100) as u8,
        (x / 0x1_0000_0000 % 0x100) as u8,
        (x / 0x100_0000 % 0x100) as u8,
        (x / 0x1_0000 % 0x100) as u8,
        (x / 0x100 % 0x100) as u8,
        (x % 0x100) as u8,
    ]
}

/// The number that eight bytes stand for, most significant first.
pub open spec fn be_value(bytes: Seq<u8>) -> nat
    recommends
        bytes.len() >= 8,
{
    (bytes[0] as nat) * 0x100_0000_0000_0000 + (bytes[1] as nat) * 0x1_0000_0000_0000
        + (bytes[2] as nat) * 0x100_0000_0000 + (bytes[3] as nat) * 0x1_0000_0000
        + (bytes[4] as nat) * 0x100_0000 + (bytes[5] as nat) * 0x1_0000
        + (bytes[6] as nat) * 0x100 + (bytes[7] as nat)
}

/// Appends the big-endian bytes of `x` to `out`.
pub fn push_be_u32(out: &mut Vec<u8>, x: u32)
    ensures
        final(out)@ == old(out)@ + be_bytes_u32(x),
{
    out.push((x / 0x100_0000) as u8);
    out.push((x / 0x1_0000 % 0x100) as u8);
    out.push((x / 0x100 % 0x100) as u8);
    out.push((x % 0x100) as u8);
}

/// Appends the big-endian bytes of `x` to `out`.
pub fn push_be_u64(out: &mut Vec<u8>, x: u64)
    ensures
        final(out)@ == old(out)@ + be_bytes_u64(x),
{
    out.push((x / 0x100_0000_0000_0000) as u8);
    out.push((x / 0x1_0000_0000_0000 % 0x100) as u8);
    out.push((x / 0x100_0000_0000 % 0x100) as u8);
    out.push((x / 0x1_0000_0000 % 0x100) as u8);
    out.push((x / 0x100_0000 % 0x100) as u8);
    out.push((x / 0x1_0000 % 0x100) as u8);
    out.push((x / 0x100 % 0x100) as u8);
    out.push((x % 0x100) as u8);
}

/// Appends the bytes of `src` to `out`.
pub fn push_bytes(out: &mut Vec<u8>, src: &[u8])
    ensures
        final(out)@ == old(out)@ + src@,
{
    let n = src.len();
    let mut i: usize = 0;
    while i < n
        invariant
            n == src@.len(),
            i <= n,
            out@ == old(out)@ + src@.subrange(0, i as int),
        decreases n - i,
    {
        out.push(src[i]);
        i += 1;
    }
    assert(src@.subrange(0, n as int) == src@);
}

/// Compares two 32-byte values.
pub fn same_hash(a: &[u8; 32], b: &[u8; 32]) -> (same: bool)
    ensures
        same == (*a == *b),
{
    let mut i: usize = 0;
    while i < 32
        invariant
            i <= 32,
            forall|k: int| 0 <= k < i ==> a[k] == b[k],
        decreases 32 - i,
    {
        if a[i] != b[i] {
            return false;
        }
        i += 1;
    }
    assert(*a =~= *b);
    true
}

/// The bytes that are hashed to identify a block: its index, the hash of
/// the block before it, and the nonce.
pub open spec fn block_preimage(index: u32, previous_hash: Seq<u8>, nonce: u64) -> Seq<u8> {
    be_bytes_u32(index) + previous_hash + be_bytes_u64(nonce)
}

/// The hash of a block with the given index, predecessor and nonce.
pub open spec fn block_hash(index: u32, previous_hash: Seq<u8>, nonce: u64) -> Seq<u8> {
    blake3_digest(block_preimage(index, previous_hash, nonce))
}

/// Whether a hash is at or below the difficulty target.
pub open spec fn hash_meets_target(hash: Seq<u8>, target: u64) -> bool {
    be_value(hash) <= target
}

/// Computes the hash of a block from its index, predecessor and nonce.
pub fn hash_with_nonce(index: u32, previous_hash: [u8; 32], nonce: u64) -> (hash: [u8; 32])
    ensures
        hash@ == block_hash(index, previous_hash@, nonce),
{
    let mut preimage: Vec<u8> = Vec::with_capacity(44);
    push_be_u32(&mut preimage, index);
    push_bytes(&mut preimage, previous_hash.as_slice());
    push_be_u64(&mut preimage, nonce);
    blake3_hash(preimage.as_slice())
}

/// A block's hash is a function of its index, its previous hash and its
/// nonce: the same three give the same hash, and the same verdict against
/// any target.
pub proof fn lemma_hash_is_deterministic(
    index: u32,
    previous_hash: Seq<u8>,
    nonce: u64,
    other_index: u32,
    other_previous_hash: Seq<u8>,
    other_nonce: u64,
    target: u64,
)
    requires
        index == other_index,
        previous_hash == other_previous_hash,
        nonce == other_nonce,
    ensures
        block_hash(index, previous_hash, nonce) == block_hash(
            other_index,
            other_previous_hash,
            other_nonce,
        ),
        hash_meets_target(block_hash(index, previous_hash, nonce), target) == hash_meets_target(
            block_hash(other_index, other_previous_hash, other_nonce),
            target,
        ),
{
}

/// Whether `nonce` is a hit: the hash of the block with this nonce meets the
/// target.
pub open spec fn is_hit(index: u32, previous_hash: Seq<u8>, target: u64, nonce: u64) -> bool {
    hash_meets_target(block_hash(index, previous_hash, nonce), target)
}

/// How many of the nonces a search tries before it stops: it stops after
/// the first hit, or when it has tried them all.
pub open spec fn attempts_needed(
    index: u32,
    previous_hash: Seq<u8>,
    target: u64,
    nonces: Seq<u64>,
) -> nat
    decreases nonces.len(),
{
    if nonces.len() == 0 {
        0
    } else if is_hit(index, previous_hash, target, nonces[0]) {
        1
    } else {
        1 + attempts_needed(index, previous_hash, target, nonces.drop_first())
    }
}

/// A search that has tried `tried` nonces without a hit still needs what
/// the search over the remaining nonces needs.
pub proof fn lemma_attempts_after_misses(
    index: u32,
    previous_hash: Seq<u8>,
    target: u64,
    nonces: Seq<u64>,
    tried: int,
)
    requires
        0 <= tried <= nonces.len(),
        forall|j: int|
            0 <= j < tried ==> !is_hit(index, previous_hash, target, #[trigger] nonces[j]),
    ensures
        attempts_needed(index, previous_hash, target, nonces) == tried + attempts_needed(
            index,
            previous_hash,
            target,
            nonces.skip(tried),
        ),
    decreases tried,
{
    if tried == 0 {
        assert(nonces.skip(0) =~= nonces);
    } else {
        let rest = nonces.drop_first();
        assert(!is_hit(index, previous_hash, target, nonces[0]));
        assert forall|j: int| 0 <= j < tried - 1 implies !is_hit(
            index,
            previous_hash,
            target,
            #[trigger] rest[j],
        ) by {
            assert(rest[j] == nonces[j + 1]);
        }
        lemma_attempts_after_misses(index, previous_hash, target, rest, tried - 1);
        assert(rest.skip(tried - 1) =~= nonces.skip(tried));
    }
}

/// A lower target is never easier: whatever nonces are drawn, the search
/// against the higher target stops no later than the search against the
/// lower one.
pub proof fn lemma_lower_target_is_harder(
    index: u32,
    previous_hash: Seq<u8>,
    lower: u64,
    higher: u64,
    nonces: Seq<u64>,
)
    requires
        lower < higher,
    ensures
        attempts_needed(index, previous_hash, higher, nonces) <= attempts_needed(
            index,
            previous_hash,
            lower,
            nonces,
        ),
    decreases nonces.len(),
{
    if nonces.len() > 0 {
        lemma_lower_target_is_harder(index, previous_hash, lower, higher, nonces.drop_first());
    }
}

/// A hash that meets a target meets every easier (larger) one.
pub proof fn lemma_meets_target_monotonic(hash: Seq<u8>, t1: u64, t2: u64)
    requires
        t1 <= t2,
        hash_meets_target(hash, t1),
    ensures
        hash_meets_target(hash, t2),
{
}

} // verus!
