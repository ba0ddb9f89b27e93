//! Blocks and their headers.
use vstd::prelude::*;

use crate::block::transaction::Transaction;
use crate::block::{zeros, Address};
use vstd::std_specs::cmp::PartialEqSpec;

verus! {

/// The header of a block. The difficulty is kept as the bit pattern of its
/// IEEE-754 single-precision value; headers compare it as that value.
#[derive(Debug, Clone, Copy)]
pub struct BlockHeader {
    pub prev_hash: [u8; 32],
    pub height: u64,
    pub nonce: u64,
    pub merkle_root: [u8; 32],
    pub difficulty_bits: u32,
    pub timestamp: i64,
}

/// Whether two single-precision bit patterns stand for equal values: a NaN
/// equals nothing, and the two zeros are equal.
pub open spec fn same_difficulty(a: u32, b: u32) -> bool {
    &&& (a & 0x7fff_ffffu32) <= 0x7f80_0000u32
    &&& (b & 0x7fff_ffffu32) <= 0x7f80_0000u32
    &&& (a == b || ((a & 0x7fff_ffffu32) == 0 && (b & 0x7fff_ffffu32) == 0))
}

/// Whether two headers are equal field by field, the difficulty as a value.
pub open spec fn same_header(a: BlockHeader, b: BlockHeader) -> bool {
    &&& a.prev_hash@ == b.prev_hash@
    &&& a.height == b.height
    &&& a.nonce == b.nonce
    &&& a.merkle_root@ == b.merkle_root@
    &&& same_difficulty(a.difficulty_bits, b.difficulty_bits)
    &&& a.timestamp == b.timestamp
}

/// Whether two 32-byte arrays are equal.
fn same_bytes(a: &[u8; 32], b: &[u8; 32]) -> (r: bool)
    ensures
        r == (a@ == b@),
{
    let mut i: usize = 0;
    while i < 32
        invariant
            i <= 32,
            a@.len() == 32,
            b@.len() == 32,
            forall|j: int| 0 <= j < i ==> a@[j] == b@[j],
        decreases 32 - i,
    {
        if a[i] != b[i] {
            return false;
        }
        i = i + 1;
    }
    assert(a@ =~= b@);
    true
}

impl PartialEq for BlockHeader {
    fn eq(&self, other: &Self) -> (r: bool) {
        let a = self.difficulty_bits;
        let b = other.difficulty_bits;
        let same_difficulty = (a & 0x7fff_ffffu32) <= 0x7f80_0000u32 && (b & 0x7fff_ffffu32)
            <= 0x7f80_0000u32 && (a == b || ((a & 0x7fff_ffffu32) == 0 && (b & 0x7fff_ffffu32)
            == 0));
        same_bytes(&self.prev_hash, &other.prev_hash) && self.height == other.height
            && self.nonce == other.nonce && same_bytes(&self.merkle_root, &other.merkle_root)
            && same_difficulty && self.timestamp == other.timestamp
    }
}

impl vstd::std_specs::cmp::PartialEqSpecImpl for BlockHeader {
    open spec fn obeys_eq_spec() -> bool {
        true
    }

    open spec fn eq_spec(&self, other: &Self) -> bool {
        same_header(*self, *other)
    }
}

/// Law: two headers are equal exactly when their previous hash, height,
/// nonce, merkle root and timestamp are equal and their difficulties are
/// equal values: neither is a NaN, and their bits agree or both are zeros
/// of either sign.
pub proof fn lemma_header_equality(a: BlockHeader, b: BlockHeader)
    ensures
        a.eq_spec(&b) ==> a.prev_hash@ == b.prev_hash@ && a.height == b.height && a.nonce
            == b.nonce && a.merkle_root@ == b.merkle_root@ && a.timestamp == b.timestamp,
        a.eq_spec(&b) ==> (a.difficulty_bits & 0x7fff_ffffu32) <= 0x7f80_0000u32 && (
        b.difficulty_bits & 0x7fff_ffffu32) <= 0x7f80_0000u32,
        a.eq_spec(&b) ==> a.difficulty_bits == b.difficulty_bits || ((a.difficulty_bits
            & 0x7fff_ffffu32) == 0 && (b.difficulty_bits & 0x7fff_ffffu32) == 0),
        a.prev_hash@ == b.prev_hash@ && a.height == b.height && a.nonce == b.nonce
            && a.merkle_root@ == b.merkle_root@ && a.timestamp == b.timestamp
            && a.difficulty_bits == b.difficulty_bits && (a.difficulty_bits & 0x7fff_ffffu32)
            <= 0x7f80_0000u32 ==> a.eq_spec(&b),
        a.prev_hash@ == b.prev_hash@ && a.height == b.height && a.nonce == b.nonce
            && a.merkle_root@ == b.merkle_root@ && a.timestamp == b.timestamp
            && (a.difficulty_bits & 0x7fff_ffffu32) == 0 && (b.difficulty_bits & 0x7fff_ffffu32)
            == 0 ==> a.eq_spec(&b),
{
}

/// A block: its header and its transactions.
#[derive(Debug, Clone, PartialEq)]
pub struct Block {
    pub block_header: BlockHeader,
    pub txs: Vec<Transaction>,
}

/// The reward paid by the first transaction of a mined block.
pub const COINBASE_REWARD: u128 = 120;

impl Block {
    /// Pays the mining reward to `to`: the single transaction of an empty
    /// block, sent from the zero address.
    pub fn coinbase(&mut self, to: Address)
        requires
            old(self).txs@.len() == 0,
        ensures
            final(self).block_header == old(self).block_header,
            final(self).txs@.len() == 1,
            final(self).txs@[0].to == to,
            final(self).txs@[0].from@ == zeros(32),
            final(self).txs@[0].value == COINBASE_REWARD,
            final(self).txs@[0].nonce == 0,
    {
        let zero: Address = [0u8; 32];
        assert(zero@ =~= zeros(32));
        let tx = Transaction::new(to, zero, COINBASE_REWARD);
        self.txs.push(tx);
    }
}

} // verus!
