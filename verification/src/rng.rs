//! Deterministic random streams. Each purpose has a stream of its own, so
//! that how much one of them is used never changes what another yields:
//! however many events fire, the weather stays the same.

use vstd::prelude::*;

use rand_chacha::ChaCha8Rng;
use rand_chacha::rand_core::SeedableRng;

verus! {

#[verifier::external_type_specification]
#[verifier::external_body]
pub struct ExChaCha8Rng(ChaCha8Rng);

/// The generator `rand_chacha::ChaCha8Rng::seed_from_u64` builds from `seed`.
pub uninterp spec fn chacha8_from_seed(seed: u64) -> ChaCha8Rng;

/// Builds a ChaCha8 generator from a 64-bit seed with `SeedableRng::seed_from_u64`,
/// which expands the seed deterministically (through PCG32) into the
/// generator's 256-bit key: the same seed always gives the same generator.
#[verifier::external_body]
fn seeded(seed: u64) -> (r: ChaCha8Rng)
    ensures
        r == chacha8_from_seed(seed),
{
    ChaCha8Rng::seed_from_u64(seed)
}

/// `ChaCha8Rng`'s `Clone`, which `derive` writes in rand_chacha (down through
/// `BlockRng` and the ChaCha core, all plain data): the copy is in the same
/// state as the original.
pub assume_specification[ <ChaCha8Rng as Clone>::clone ](rng: &ChaCha8Rng) -> (res: ChaCha8Rng)
    ensures
        res == *rng,
;

pub const DAILY_SALT: u64 = 0x0000_00A1_0000_00A1;

pub const EVENTS_SALT: u64 = 0x0000_00B2_0000_00B2;

pub const ENV_SALT: u64 = 0x0000_00C3_0000_00C3;

pub const CUP_SALT: u64 = 0x0000_00D4_0000_00D4;

#[derive(Clone, Debug)]
pub struct RngSet {
    /// Small daily variation (sales, turnout, training).
    pub daily: ChaCha8Rng,
    /// Conditional events.
    pub events: ChaCha8Rng,
    /// The outside environment (weather, supply, rival nations).
    pub env: ChaCha8Rng,
    /// Cup results.
    pub cup: ChaCha8Rng,
    /// The seed the streams came from.
    pub seed: u64,
}

impl RngSet {
    /// The four streams of a game, each seeded from `seed` with a salt of its own.
    pub fn new(seed: u64) -> (r: RngSet)
        ensures
            r.daily == chacha8_from_seed(seed ^ DAILY_SALT),
            r.events == chacha8_from_seed(seed ^ EVENTS_SALT),
            r.env == chacha8_from_seed(seed ^ ENV_SALT),
            r.cup == chacha8_from_seed(seed ^ CUP_SALT),
            r.seed == seed,
    {
        RngSet {
            daily: seeded(seed ^ DAILY_SALT),
            events: seeded(seed ^ EVENTS_SALT),
            env: seeded(seed ^ ENV_SALT),
            cup: seeded(seed ^ CUP_SALT),
            seed,
        }
    }
}

/// Whatever the seed, the four streams start from four different seeds.
pub proof fn lemma_streams_seeded_apart(seed: u64)
    ensures
        seed ^ DAILY_SALT != seed ^ EVENTS_SALT,
        seed ^ DAILY_SALT != seed ^ ENV_SALT,
        seed ^ DAILY_SALT != seed ^ CUP_SALT,
        seed ^ EVENTS_SALT != seed ^ ENV_SALT,
        seed ^ EVENTS_SALT != seed ^ CUP_SALT,
        seed ^ ENV_SALT != seed ^ CUP_SALT,
{
    assert(seed ^ 0x0000_00A1_0000_00A1u64 != seed ^ 0x0000_00B2_0000_00B2u64) by (bit_vector);
    assert(seed ^ 0x0000_00A1_0000_00A1u64 != seed ^ 0x0000_00C3_0000_00C3u64) by (bit_vector);
    assert(seed ^ 0x0000_00A1_0000_00A1u64 != seed ^ 0x0000_00D4_0000_00D4u64) by (bit_vector);
    assert(seed ^ 0x0000_00B2_0000_00B2u64 != seed ^ 0x0000_00C3_0000_00C3u64) by (bit_vector);
    assert(seed ^ 0x0000_00B2_0000_00B2u64 != seed ^ 0x0000_00D4_0000_00D4u64) by (bit_vector);
    assert(seed ^ 0x0000_00C3_0000_00C3u64 != seed ^ 0x0000_00D4_0000_00D4u64) by (bit_vector);
}

/// The same seed gives the same streams.
pub proof fn lemma_same_seed_same_streams(a: RngSet, b: RngSet)
    requires
        a.seed == b.seed,
        a.daily == chacha8_from_seed(a.seed ^ DAILY_SALT),
        b.daily == chacha8_from_seed(b.seed ^ DAILY_SALT),
        a.events == chacha8_from_seed(a.seed ^ EVENTS_SALT),
        b.events == chacha8_from_seed(b.seed ^ EVENTS_SALT),
        a.env == chacha8_from_seed(a.seed ^ ENV_SALT),
        b.env == chacha8_from_seed(b.seed ^ ENV_SALT),
        a.cup == chacha8_from_seed(a.seed ^ CUP_SALT),
        b.cup == chacha8_from_seed(b.seed ^ CUP_SALT),
    ensures
        a == b,
{
}

} // verus!
