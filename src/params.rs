use vstd::prelude::*;

verus! {

/// The unsigned integer that four bytes spell in little-endian order.
pub open spec fn le_u32(b0: u8, b1: u8, b2: u8, b3: u8) -> int {
    b0 + 256 * b1 + 65536 * b2 + 16777216 * b3
}

/// Walk count a key asks for: its first four bytes, little-endian, reduced into `3..=10`.
pub open spec fn walks_of(key: Seq<u8>) -> int {
    3 + le_u32(key[0], key[1], key[2], key[3]) % 8
}

/// Step count a key asks for: its bytes 4..8, little-endian, reduced into `100..=300`.
pub open spec fn steps_of(key: Seq<u8>) -> int {
    100 + le_u32(key[4], key[5], key[6], key[7]) % 201
}

fn read_le_u32(b0: u8, b1: u8, b2: u8, b3: u8) -> (r: u32)
    ensures
        r == le_u32(b0, b1, b2, b3),
{
    (b0 as u32) + 256 * (b1 as u32) + 65536 * (b2 as u32) + 16777216 * (b3 as u32)
}

/// Derives `(walks, steps)` from the first eight bytes of the key.
pub fn derive_parameters(pk: &[u8; 32]) -> (r: (u64, u64))
    ensures
        r.0 == walks_of(pk@),
        r.1 == steps_of(pk@),
        3 <= r.0 <= 10,
        100 <= r.1 <= 300,
{
    let walks_raw = read_le_u32(pk[0], pk[1], pk[2], pk[3]);
    let steps_raw = read_le_u32(pk[4], pk[5], pk[6], pk[7]);
    let walks: u64 = 3 + (walks_raw % 8) as u64;
    let steps: u64 = 100 + (steps_raw % 201) as u64;
    (walks, steps)
}

} // verus!
