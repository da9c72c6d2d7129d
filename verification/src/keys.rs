//! Derivation of the byte identifiers under which versions are stored.

use vstd::bytes::{
    spec_u64_to_le_bytes, spec_u64_to_le_bytes_open, spec_u64_to_le_bytes_to_open, u64_to_le_bytes,
};
use vstd::prelude::*;
use vstd::string::StringSliceAdditionalSpecFns;

verus! {

/// The prefix that namespaces the version index of a key.
pub open spec fn index_prefix() -> Seq<u8> {
    "memory:".spec_bytes()
}

/// The power of 256 with exponent `exponent`.
pub open spec fn place_value(exponent: int) -> int
    decreases exponent,
{
    if exponent <= 0 {
        1
    } else {
        256 * place_value(exponent - 1)
    }
}

/// The little-endian encoding of a block number, eight bytes wide: the
/// byte at position `i` is the digit of weight `256^i`.
pub open spec fn spec_block_bytes(block_number: u64) -> Seq<u8> {
    Seq::new(8, |i: int| ((block_number as int / place_value(i)) % 256) as u8)
}

/// The encoding that the machine's own conversion gives is the one
/// stated by digits.
pub proof fn lemma_block_bytes_match(block_number: u64)
    ensures
        spec_u64_to_le_bytes(block_number) == spec_block_bytes(block_number),
{
    let x = block_number;
    spec_u64_to_le_bytes_to_open(x);
    reveal_with_fuel(place_value, 9);
    assert((x & 0xff) == x % 256) by (bit_vector);
    assert(((x >> 8) & 0xff) == (x / 0x100) % 256) by (bit_vector);
    assert(((x >> 16) & 0xff) == (x / 0x1_0000) % 256) by (bit_vector);
    assert(((x >> 24) & 0xff) == (x / 0x100_0000) % 256) by (bit_vector);
    assert(((x >> 32) & 0xff) == (x / 0x1_0000_0000) % 256) by (bit_vector);
    assert(((x >> 40) & 0xff) == (x / 0x100_0000_0000) % 256) by (bit_vector);
    assert(((x >> 48) & 0xff) == (x / 0x1_0000_0000_0000) % 256) by (bit_vector);
    assert(((x >> 56) & 0xff) == (x / 0x100_0000_0000_0000) % 256) by (bit_vector);
    assert(spec_u64_to_le_bytes_open(x) =~= spec_block_bytes(x));
}

/// The version identifier of `key` at `block_number`: the encoded block
/// number followed by the key, with no delimiter.
pub open spec fn spec_full_key(block_number: u64, key: Seq<u8>) -> Seq<u8> {
    spec_block_bytes(block_number) + key
}

/// The field of the content store under which the payload written for
/// `key` at `block_number` is kept. It is the version identifier.
pub open spec fn spec_hash_key(block_number: u64, key: Seq<u8>) -> Seq<u8> {
    spec_full_key(block_number, key)
}

/// The name of the version index of `key`.
pub open spec fn spec_memory_key(key: Seq<u8>) -> Seq<u8> {
    index_prefix() + key
}

/// Appends a copy of `tail` to `head`.
pub fn append_bytes(head: &mut Vec<u8>, tail: &[u8])
    ensures
        final(head)@ == old(head)@ + tail@,
{
    let ghost before = head@;
    let mut i: usize = 0;
    while i < tail.len()
        invariant
            i <= tail.len(),
            head@ == before + tail@.subrange(0, i as int),
        decreases tail.len() - i,
    {
        head.push(tail[i]);
        i += 1;
    }
    assert(tail@.subrange(0, tail.len() as int) == tail@);
}

/// Builds the version identifier of `key` at `block_number`.
pub fn full_key(block_number: u64, key: &[u8]) -> (id: Vec<u8>)
    ensures
        id@ == spec_full_key(block_number, key@),
{
    let mut id = u64_to_le_bytes(block_number);
    proof {
        lemma_block_bytes_match(block_number);
    }
    append_bytes(&mut id, key);
    id
}

/// Builds the name of the version index of `key`.
pub fn memory_key(key: &[u8]) -> (name: Vec<u8>)
    ensures
        name@ == spec_memory_key(key@),
{
    let mut name = Vec::new();
    append_bytes(&mut name, "memory:".as_bytes());
    append_bytes(&mut name, key);
    name
}

/// Builds the content-store field for `key` at `block_number`.
pub fn hash_key(block_number: u64, key: &[u8]) -> (field: Vec<u8>)
    ensures
        field@ == spec_hash_key(block_number, key@),
{
    full_key(block_number, key)
}

} // verus!
