//! Seeded pseudo-random draws.
//!
//! The solver derives one generator per branching call from
//! `seed + nodes_visited`, so every draw is a function of that derived seed
//! and of its position in the stream. `jsf_stream` names that function; the
//! generator itself comes from the `smolprng` crate and is kept behind
//! trusted wrappers.

use vstd::prelude::*;

verus! {

/// The value that the Jenkins small fast generator, seeded with `seed`,
/// produces as its `k`-th 64-bit draw. The algorithm is deterministic, so
/// the draw is a function of the seed and the position alone.
pub uninterp spec fn jsf_stream(seed: u64, k: int) -> u64;

/// The seed a generator was built from.
pub uninterp spec fn rng_seed(rng: JsfRng) -> u64;

/// How many 64-bit draws a generator has produced so far.
pub uninterp spec fn rng_pos(rng: JsfRng) -> int;

/// A Jenkins small fast generator from the `smolprng` crate, together with
/// the seed it was built from and a count of the draws already taken. The
/// generator state is opaque here; `rng_seed` and `rng_pos` name what the
/// contracts need of it.
#[verifier::external_body]
pub struct JsfRng {
    state: smolprng::PRNG<smolprng::JsfLarge>,
    seed_val: u64,
    drawn: u64,
}

impl JsfRng {
    /// Relies on `smolprng::JsfLarge::from(u64)`: seeding initializes the
    /// generator state deterministically from the seed, with no draws taken
    /// yet.
    #[verifier::external_body]
    pub fn new(seed: u64) -> (r: JsfRng)
        ensures
            rng_seed(r) == seed,
            rng_pos(r) == 0,
    {
        JsfRng {
            state: smolprng::PRNG { generator: smolprng::JsfLarge::from(seed) },
            seed_val: seed,
            drawn: 0,
        }
    }

    /// Relies on `smolprng::PRNG::gen_u64`: the generator advances by one
    /// position, and the draw is a function of the seed and the position
    /// alone.
    #[verifier::external_body]
    pub fn next_u64(&mut self) -> (r: u64)
        ensures
            rng_seed(*final(self)) == rng_seed(*old(self)),
            rng_pos(*final(self)) == rng_pos(*old(self)) + 1,
            r == jsf_stream(rng_seed(*old(self)), rng_pos(*old(self))),
    {
        self.drawn = self.drawn.wrapping_add(1);
        self.state.gen_u64()
    }
}

/// The per-call seed the solver hands to `random`: the run seed plus the
/// visited-node counter, wrapping around at the width of `u64`.
pub fn derive_node_seed(seed: u64, nodes_visited: u64) -> (r: u64)
    ensures
        r == (seed + nodes_visited) % 0x1_0000_0000_0000_0000,
{
    if nodes_visited <= u64::MAX - seed {
        seed + nodes_visited
    } else {
        nodes_visited - (u64::MAX - seed) - 1
    }
}

} // verus!
