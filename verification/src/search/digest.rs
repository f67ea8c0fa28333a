//! Digests: folding the bytes that make up a state into one filing key.

use vstd::prelude::*;

verus! {

/// The key that results from folding one more byte into `acc`.
pub open spec fn blended(acc: u64, value: u8) -> u64 {
    ((acc % 0x0100_0000_0000_0000) * 131 + value) as u64
}

/// Folds one more byte into a key.
pub fn blend(acc: u64, value: u8) -> (key: u64)
    ensures
        key == blended(acc, value),
{
    (acc % 0x0100_0000_0000_0000) * 131 + value as u64
}

/// The key that results from folding the first `upto` bytes of `bytes`, in
/// order, into zero.
pub open spec fn folded(bytes: Seq<u8>, upto: int) -> u64
    decreases upto,
{
    if upto <= 0 {
        0
    } else {
        blended(folded(bytes, upto - 1), bytes[upto - 1])
    }
}

/// Folds a run of bytes into a key.
pub fn fold_bytes(bytes: &[u8]) -> (key: u64)
    ensures
        key == folded(bytes@, bytes@.len() as int),
{
    let mut key: u64 = 0;
    let mut i: usize = 0;
    while i < bytes.len()
        invariant
            i <= bytes@.len(),
            key == folded(bytes@, i as int),
        decreases bytes@.len() - i,
    {
        key = blend(key, bytes[i]);
        i += 1;
    }
    key
}

} // verus!
