//! Starting points used to seed each relaxation solve.
//!
//! Fractional points are vectors of IEEE-754 bit patterns: every entry of
//! the central point is the pattern of one half, and the alpha and rho
//! points repeat a scalar the problem's analytic heuristics supply. Binary
//! points are vectors over zero and one, drawn entry by entry from the
//! seeded generator: a draw's top 52 bits, read as a count of steps of
//! width two to the minus fifty-second across the unit interval, fall below
//! the requested threshold with exactly the requested probability.

use vstd::prelude::*;
use crate::rng::{JsfRng, jsf_stream, rng_pos, rng_seed};

verus! {

/// The IEEE-754 bit pattern of one half.
pub const ONE_HALF_BITS: u64 = 0x3FE0_0000_0000_0000;

/// The threshold that makes every entry of a random binary point one: the
/// number of steps of width two to the minus fifty-second in the whole unit
/// interval.
pub const FULL_THRESHOLD: u64 = 0x10_0000_0000_0000;

/// The threshold that makes an entry one with probability one half.
pub const HALF_THRESHOLD: u64 = 0x8_0000_0000_0000;

/// The draw at position `k` of the stream seeded with `seed`, reduced to a
/// count of unit-interval steps (its top 52 bits).
pub open spec fn unit_steps(seed: u64, k: int) -> u64 {
    jsf_stream(seed, k) >> 12
}

/// The entry a random binary point gets from the draw at position `k`: one
/// when the draw falls below the threshold, zero otherwise.
pub open spec fn binary_entry(seed: u64, k: int, threshold: u64) -> usize {
    if unit_steps(seed, k) < threshold {
        1
    } else {
        0
    }
}

/// A full threshold makes every entry one and a zero threshold makes every
/// entry zero, whatever the generator draws.
pub proof fn lemma_binary_entry_extremes(seed: u64, k: int)
    ensures
        binary_entry(seed, k, FULL_THRESHOLD) == 1,
        binary_entry(seed, k, 0) == 0,
{
    let draw = jsf_stream(seed, k);
    assert((draw >> 12) < 0x10_0000_0000_0000) by (bit_vector);
}

/// The central starting point: a vector of length `n` whose every entry is
/// exactly one half.
pub fn generate_central_starting_points(n: usize) -> (r: Vec<u64>)
    ensures
        r@.len() == n,
        forall|i: int| 0 <= i < n ==> r@[i] == ONE_HALF_BITS,
{
    splat(n, ONE_HALF_BITS)
}

/// The alpha starting point: a vector of length `n` whose every entry is
/// the scalar the problem's alpha heuristic supplies.
pub fn generate_alpha_starting_point(n: usize, alpha: u64) -> (r: Vec<u64>)
    ensures
        r@.len() == n,
        forall|i: int| 0 <= i < n ==> r@[i] == alpha,
{
    splat(n, alpha)
}

/// The rho starting point: a vector of length `n` whose every entry is the
/// scalar the problem's rho heuristic supplies.
pub fn generate_rho_starting_point(n: usize, rho: u64) -> (r: Vec<u64>)
    ensures
        r@.len() == n,
        forall|i: int| 0 <= i < n ==> r@[i] == rho,
{
    splat(n, rho)
}

/// A vector of length `n` with every entry equal to `value`.
fn splat(n: usize, value: u64) -> (r: Vec<u64>)
    ensures
        r@.len() == n,
        forall|i: int| 0 <= i < n ==> r@[i] == value,
{
    let mut r: Vec<u64> = Vec::new();
    let mut i: usize = 0;
    while i < n
        invariant
            i <= n,
            r@.len() == i,
            forall|j: int| 0 <= j < i ==> r@[j] == value,
        decreases n - i,
    {
        r.push(value);
        i += 1;
    }
    r
}

/// A random binary point: entry `i` is one exactly when the generator's
/// next draw falls below `threshold`, so each entry is one with probability
/// `threshold` unit-interval steps, independently per entry.
pub fn generate_random_binary_point(n: usize, prng: &mut JsfRng, threshold: u64) -> (r: Vec<usize>)
    ensures
        r@.len() == n,
        rng_seed(*final(prng)) == rng_seed(*old(prng)),
        rng_pos(*final(prng)) == rng_pos(*old(prng)) + n,
        forall|i: int|
            0 <= i < n ==> r@[i] == binary_entry(rng_seed(*old(prng)), rng_pos(*old(prng)) + i, threshold),
{
    let mut x: Vec<usize> = Vec::new();
    let mut i: usize = 0;
    while i < n
        invariant
            i <= n,
            x@.len() == i,
            rng_seed(*prng) == rng_seed(*old(prng)),
            rng_pos(*prng) == rng_pos(*old(prng)) + i,
            forall|j: int|
                0 <= j < i ==> x@[j] == binary_entry(
                    rng_seed(*old(prng)),
                    rng_pos(*old(prng)) + j,
                    threshold,
                ),
        decreases n - i,
    {
        let draw = prng.next_u64();
        if (draw >> 12) < threshold {
            x.push(1);
        } else {
            x.push(0);
        }
        i += 1;
    }
    x
}

/// A batch of `num_points` independent random binary points at probability
/// one half, drawn one after another from the same generator.
pub fn generate_random_binary_points(n: usize, num_points: usize, prng: &mut JsfRng) -> (r: Vec<
    Vec<usize>,
>)
    ensures
        r@.len() == num_points,
        rng_seed(*final(prng)) == rng_seed(*old(prng)),
        rng_pos(*final(prng)) == rng_pos(*old(prng)) + num_points * n,
        forall|p: int, i: int|
            0 <= p < num_points && 0 <= i < n ==> r@[p]@[i] == binary_entry(
                rng_seed(*old(prng)),
                rng_pos(*old(prng)) + p * n + i,
                HALF_THRESHOLD,
            ),
        forall|p: int| 0 <= p < num_points ==> r@[p]@.len() == n,
{
    let mut out: Vec<Vec<usize>> = Vec::new();
    let mut p: usize = 0;
    while p < num_points
        invariant
            p <= num_points,
            out@.len() == p,
            rng_seed(*prng) == rng_seed(*old(prng)),
            rng_pos(*prng) == rng_pos(*old(prng)) + p * n,
            forall|q: int, i: int|
                0 <= q < p && 0 <= i < n ==> out@[q]@[i] == binary_entry(
                    rng_seed(*old(prng)),
                    rng_pos(*old(prng)) + q * n + i,
                    HALF_THRESHOLD,
                ),
            forall|q: int| 0 <= q < p ==> out@[q]@.len() == n,
        decreases num_points - p,
    {
        let point = generate_random_binary_point(n, prng, HALF_THRESHOLD);
        out.push(point);
        assert((p + 1) * n == p * n + n) by (nonlinear_arith);
        p += 1;
    }
    out
}

} // verus!
