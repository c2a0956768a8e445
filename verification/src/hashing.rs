//! Deterministic hashing of body and frame identifiers.
//!
//! Identities are compared as fixed-width integers everywhere in the library,
//! so the hash must be stable across processes and platforms: it depends on
//! the identifier bytes alone.
use vstd::prelude::*;

verus! {

/// Offset basis of the 32-bit Fowler-Noll-Vo hash.
pub const FNV32_OFFSET_BASIS: u32 = 0x811c_9dc5;
/// Prime multiplier of the 32-bit Fowler-Noll-Vo hash.
pub const FNV32_PRIME: u32 = 0x0100_0193;

/// One step of the hash: fold one byte into the accumulator.
pub open spec fn hash_step(h: u32, b: u8) -> u32 {
    ((((h ^ (b as u32)) as int) * (FNV32_PRIME as int)) % 0x1_0000_0000) as u32
}

/// Hash of an identifier, defined over its byte sequence.
pub open spec fn hash_of(s: Seq<u8>) -> u32
    decreases s.len(),
{
    if s.len() == 0 {
        FNV32_OFFSET_BASIS
    } else {
        hash_step(hash_of(s.drop_last()), s.last())
    }
}

/// Computes the identity hash of a canonical identifier.
///
/// The result depends on the identifier bytes alone, so it is identical
/// across process runs and platforms.
pub fn hash_name(name: &[u8]) -> (h: u32)
    ensures
        h == hash_of(name@),
{
    let mut h: u32 = FNV32_OFFSET_BASIS;
    let mut i: usize = 0;
    while i < name.len()
        invariant
            i <= name.len(),
            h == hash_of(name@.subrange(0, i as int)),
        decreases name.len() - i,
    {
        proof {
            assert(name@.subrange(0, i + 1).drop_last() =~= name@.subrange(0, i as int));
            assert(name@.subrange(0, i + 1).last() == name@[i as int]);
        }
        h = (h ^ (name[i] as u32)).wrapping_mul(FNV32_PRIME);
        i = i + 1;
    }
    proof {
        assert(name@.subrange(0, name@.len() as int) =~= name@);
    }
    h
}

} // verus!
