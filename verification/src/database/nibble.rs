//! Keys of the trie are walked four bits at a time.
use vstd::prelude::*;

verus! {

/// Half of a byte, `0..=15`.
pub type Nibble = u8;

/// The nibbles of `bytes`: for each byte its high half, then its low half.
pub open spec fn spec_nibbles(bytes: Seq<u8>) -> Seq<Nibble> {
    Seq::new(
        2 * bytes.len(),
        |k: int|
            if k % 2 == 0 {
                bytes[k / 2] >> 4u8
            } else {
                bytes[k / 2] & 0x0fu8
            },
    )
}

/// Splits every byte into its high and its low nibble, in order.
pub fn byte_to_nibble(bytes: &[u8]) -> (r: Vec<Nibble>)
    ensures
        r@ == spec_nibbles(bytes@),
{
    let mut ret: Vec<Nibble> = Vec::new();
    let mut i: usize = 0;
    while i < bytes.len()
        invariant
            i <= bytes@.len(),
            ret@ == spec_nibbles(bytes@.subrange(0, i as int)),
        decreases bytes@.len() - i,
    {
        let b = bytes[i];
        let high_nibble = (b >> 4u8) & 0x0fu8;
        let low_nibble = b & 0x0fu8;
        assert((b >> 4u8) & 0x0fu8 == b >> 4u8) by (bit_vector);
        ret.push(high_nibble);
        ret.push(low_nibble);
        i = i + 1;
        assert(ret@ =~= spec_nibbles(bytes@.subrange(0, i as int)));
    }
    assert(bytes@.subrange(0, bytes@.len() as int) =~= bytes@);
    ret
}

/// Law: every nibble is below 16, and each byte is its high nibble times 16
/// plus its low nibble, so the bytes can be read back from the nibbles.
pub proof fn lemma_nibbles_recombine(bytes: Seq<u8>, i: int)
    requires
        0 <= i < bytes.len(),
    ensures
        spec_nibbles(bytes).len() == 2 * bytes.len(),
        spec_nibbles(bytes)[2 * i] < 16,
        spec_nibbles(bytes)[2 * i + 1] < 16,
        spec_nibbles(bytes)[2 * i] * 16 + spec_nibbles(bytes)[2 * i + 1] == bytes[i],
{
    let b = bytes[i];
    let n = spec_nibbles(bytes);
    assert((2 * i) % 2 == 0 && (2 * i) / 2 == i);
    assert((2 * i + 1) % 2 == 1 && (2 * i + 1) / 2 == i);
    assert(n[2 * i] == b >> 4u8);
    assert(n[2 * i + 1] == b & 0x0fu8);
    assert((b >> 4u8) < 16 && (b & 0x0fu8) < 16 && (b >> 4u8) * 16 + (b & 0x0fu8) == b)
        by (bit_vector);
}

} // verus!
