//! FNV-1a, the hash of the whole game state used to check determinism and
//! save round trips.

use vstd::prelude::*;

verus! {

/// The 64-bit FNV offset basis.
pub const FNV_OFFSET: u64 = 0xcbf2_9ce4_8422_2325;

/// The 64-bit FNV prime, 2^40 + 0x1b3.
pub const FNV_PRIME: u64 = 0x0000_0100_0000_01b3;

/// One round: mix a byte in, then multiply modulo 2^64.
pub open spec fn fnv_step(h: u64, b: u8) -> u64 {
    vstd::wrapping::u64_specs::wrapping_mul(h ^ (b as u64), FNV_PRIME)
}

/// The 64-bit FNV-1a hash of `bytes`: start from `FNV_OFFSET`, and for each
/// byte xor it in and multiply by `FNV_PRIME` modulo 2^64.
pub open spec fn spec_fnv1a(bytes: Seq<u8>) -> u64
    decreases bytes.len(),
{
    if bytes.len() == 0 {
        FNV_OFFSET
    } else {
        fnv_step(spec_fnv1a(bytes.drop_last()), bytes.last())
    }
}

pub fn fnv1a(bytes: &[u8]) -> (h: u64)
    ensures
        h == spec_fnv1a(bytes@),
{
    let mut h: u64 = FNV_OFFSET;
    let mut i: usize = 0;
    proof {
        assert(bytes@.take(0) =~= Seq::<u8>::empty());
    }
    while i < bytes.len()
        invariant
            i <= bytes@.len(),
            h == spec_fnv1a(bytes@.take(i as int)),
        decreases bytes@.len() - i,
    {
        let b = bytes[i];
        h = (h ^ (b as u64)).wrapping_mul(FNV_PRIME);
        proof {
            assert(bytes@.take(i + 1).drop_last() == bytes@.take(i as int));
            assert(bytes@.take(i + 1).last() == b);
        }
        i = i + 1;
    }
    proof {
        assert(bytes@.take(bytes@.len() as int) == bytes@);
    }
    h
}

/// Appending a byte xors it into the hash so far and multiplies by the FNV
/// prime modulo 2^64.
pub proof fn lemma_fnv1a_append(bytes: Seq<u8>, b: u8)
    ensures
        spec_fnv1a(bytes.push(b)) == vstd::wrapping::u64_specs::wrapping_mul(
            spec_fnv1a(bytes) ^ (b as u64),
            0x0000_0100_0000_01b3u64,
        ),
{
    assert(bytes.push(b).drop_last() == bytes);
}

} // verus!
