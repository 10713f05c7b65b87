//! FNV-1a hashes of names: 32-bit for opcode mnemonics and type tags, 64-bit
//! for class names.
use vstd::prelude::*;
use vstd::string::StringSliceAdditionalSpecFns;

verus! {

pub const FNV32_OFFSET: u32 = 0x811c9dc5;

pub const FNV32_PRIME: u32 = 0x01000193;

pub const FNV64_OFFSET: u64 = 0xcbf29ce484222325;

pub const FNV64_PRIME: u64 = 0x100000001b32;

/// One FNV-1a round on a 32-bit state: xor the byte in, then multiply modulo 2^32.
pub open spec fn fnv32_round(h: u32, b: u8) -> u32 {
    vstd::wrapping::u32_specs::wrapping_mul(h ^ (b as u32), FNV32_PRIME)
}

/// One FNV-1a round on a 64-bit state.
pub open spec fn fnv64_round(h: u64, b: u8) -> u64 {
    vstd::wrapping::u64_specs::wrapping_mul(h ^ (b as u64), FNV64_PRIME)
}

/// 32-bit FNV-1a of a byte sequence.
pub open spec fn fnv1a_32(bytes: Seq<u8>) -> u32
    decreases bytes.len(),
{
    if bytes.len() == 0 {
        FNV32_OFFSET
    } else {
        fnv32_round(fnv1a_32(bytes.drop_last()), bytes.last())
    }
}

/// 64-bit FNV-1a of a byte sequence.
pub open spec fn fnv1a_64(bytes: Seq<u8>) -> u64
    decreases bytes.len(),
{
    if bytes.len() == 0 {
        FNV64_OFFSET
    } else {
        fnv64_round(fnv1a_64(bytes.drop_last()), bytes.last())
    }
}

/// 32-bit FNV-1a over a byte slice.
pub fn opcode_hash_bytes(bytes: &[u8]) -> (h: u32)
    ensures
        h == fnv1a_32(bytes@),
{
    let mut h: u32 = FNV32_OFFSET;
    let mut i: usize = 0;
    while i < bytes.len()
        invariant
            i <= bytes@.len(),
            h == fnv1a_32(bytes@.subrange(0, i as int)),
        decreases bytes@.len() - i,
    {
        assert(bytes@.subrange(0, i + 1).drop_last() =~= bytes@.subrange(0, i as int));
        h = (h ^ (bytes[i] as u32)).wrapping_mul(FNV32_PRIME);
        i = i + 1;
    }
    assert(bytes@.subrange(0, i as int) =~= bytes@);
    h
}

/// 64-bit FNV-1a over a byte slice.
pub fn class_hash_bytes(bytes: &[u8]) -> (h: u64)
    ensures
        h == fnv1a_64(bytes@),
{
    let mut h: u64 = FNV64_OFFSET;
    let mut i: usize = 0;
    while i < bytes.len()
        invariant
            i <= bytes@.len(),
            h == fnv1a_64(bytes@.subrange(0, i as int)),
        decreases bytes@.len() - i,
    {
        assert(bytes@.subrange(0, i + 1).drop_last() =~= bytes@.subrange(0, i as int));
        h = (h ^ (bytes[i] as u64)).wrapping_mul(FNV64_PRIME);
        i = i + 1;
    }
    assert(bytes@.subrange(0, i as int) =~= bytes@);
    h
}

/// The 32-bit FNV-1a hash of the UTF-8 bytes of `s`, the dispatch key of an
/// opcode mnemonic or a type tag.
pub fn opcode_hash(s: &str) -> (h: u32)
    ensures
        h == fnv1a_32(s.spec_bytes()),
{
    opcode_hash_bytes(s.as_bytes())
}

/// The 64-bit FNV-1a hash of the UTF-8 bytes of `s`, the tag of an object of
/// the class named `s`.
pub fn class_hash(s: &str) -> (h: u64)
    ensures
        h == fnv1a_64(s.spec_bytes()),
{
    class_hash_bytes(s.as_bytes())
}

} // verus!
