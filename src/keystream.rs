use rand::{Rng, SeedableRng};
use rand_chacha::ChaCha8Rng;
use vstd::prelude::*;

verus! {

/// One past the largest word position of a ChaCha8 keystream: a 64-bit block
/// counter times sixteen words per block.
pub const WORD_POS_LIMIT: u128 = 0x10_0000_0000_0000_0000;

/// What `gen::<u32>()` yields from the ChaCha8 generator seeded with `key` and
/// placed at word position `pos`, with the word position after the draw.
pub uninterp spec fn chacha8_next_u32(key: Seq<u8>, pos: int) -> (u32, int);

/// What `gen_range(lo..hi)` on `u64` yields from the ChaCha8 generator seeded with
/// `key` and placed at word position `pos`, with the word position after the draw.
pub uninterp spec fn chacha8_gen_range(key: Seq<u8>, pos: int, lo: u64, hi: u64) -> (u64, int);

/// Relies on rand_chacha's `ChaCha8Rng` (`from_seed`, `set_word_pos`, `get_word_pos`)
/// and rand's `Rng::gen::<u32>`: the word drawn depends on the seed and the position
/// alone, and `get_word_pos` is a 64-bit block number times 16 plus a word offset
/// below 16.
#[verifier::external_body]
pub(crate) fn next_u32_at(key: &[u8; 32], pos: u128) -> (r: (u32, u128))
    ensures
        (r.0, r.1 as int) == chacha8_next_u32(key@, pos as int),
        r.1 < WORD_POS_LIMIT,
{
    let mut rng = ChaCha8Rng::from_seed(*key);
    rng.set_word_pos(pos);
    let value: u32 = rng.gen();
    (value, rng.get_word_pos())
}

/// Relies on rand_chacha's `ChaCha8Rng` (`from_seed`, `set_word_pos`, `get_word_pos`)
/// and rand's `Rng::gen_range`, which panics on an empty range and otherwise returns
/// a value of `lo..hi`; the value depends on the seed, the position and the range alone.
#[verifier::external_body]
pub(crate) fn gen_range_at(key: &[u8; 32], pos: u128, lo: u64, hi: u64) -> (r: (u64, u128))
    requires
        lo < hi,
    ensures
        (r.0, r.1 as int) == chacha8_gen_range(key@, pos as int, lo, hi),
        lo <= r.0 < hi,
        r.1 < WORD_POS_LIMIT,
{
    let mut rng = ChaCha8Rng::from_seed(*key);
    rng.set_word_pos(pos);
    let value: u64 = rng.gen_range(lo..hi);
    (value, rng.get_word_pos())
}

} // verus!
