//! Integer side of the per-note noise sources: seeding from the voice
//! counter and the note, re-keying on key release, and the xorshift draw
//! whose 53-bit result the audio code turns into a sample in `[-1, 1)`.

use vstd::prelude::*;
use vstd::arithmetic::div_mod::{lemma_mod_multiples_vanish, lemma_mul_mod_noop_left, lemma_small_mod};
use vstd::arithmetic::mul::lemma_mul_is_associative;
use crate::rng::{GOLDEN_GAMMA, xorshift_step, scramble, xorshift_next, mantissa_bits, lemma_step_nonzero};

verus! {

/// Pattern mixed into the strike seed to decorrelate the release noise
/// from the hammer noise.
pub const RELEASE_NOISE_PATTERN: u64 = 0x5A5A_5A5A_5A5A_5A5A;

/// State of the key-release noise source of a voice that was never struck.
pub const INITIAL_RELEASE_NOISE_STATE: u64 = 0x2545_F491_4F6C_DD15;

/// State of the hammer noise source of a voice that was never struck.
pub const INITIAL_HAMMER_NOISE_STATE: u64 = 1;

pub open spec fn spec_strike_noise_seed(internal_voice_id: u64, note: u8) -> u64 {
    vstd::wrapping::u64_specs::wrapping_mul(internal_voice_id, GOLDEN_GAMMA) ^ ((note as u64) << 32u64)
}

/// The seed of everything random about one strike: the voice counter
/// spread by the golden-ratio constant, with the note number xored into
/// bits 32 and up.
pub fn strike_noise_seed(internal_voice_id: u64, note: u8) -> (r: u64)
    ensures
        r == spec_strike_noise_seed(internal_voice_id, note),
{
    let widened: u64 = note as u64;
    internal_voice_id.wrapping_mul(GOLDEN_GAMMA) ^ (widened << 32u64)
}

/// The hammer noise state a strike starts from: the seed with its lowest
/// bit set.
pub fn hammer_noise_state_for_strike(seed: u64) -> (r: u64)
    ensures
        r == seed | 1u64,
        r != 0,
{
    let r = seed | 1u64;
    assert(r != 0) by (bit_vector)
        requires r == seed | 1u64;
    r
}

/// The key-release noise state a strike starts from: the seed xored with
/// a fixed pattern, lowest bit set.
pub fn release_noise_state_for_strike(seed: u64) -> (r: u64)
    ensures
        r == (seed ^ RELEASE_NOISE_PATTERN) | 1u64,
        r != 0,
{
    let r = (seed ^ RELEASE_NOISE_PATTERN) | 1u64;
    assert(r != 0) by (bit_vector)
        requires r == (seed ^ 0x5A5A_5A5A_5A5A_5A5Au64) | 1u64;
    r
}

/// Re-keys the release noise on every key release: the state advanced by
/// the golden-ratio constant (wrapping), lowest bit set.
pub fn release_noise_state_after_key_release(state: u64) -> (r: u64)
    ensures
        r == vstd::wrapping::u64_specs::wrapping_add(state, GOLDEN_GAMMA) | 1u64,
        r != 0,
{
    let r = state.wrapping_add(GOLDEN_GAMMA) | 1u64;
    assert(r != 0) by (bit_vector)
        requires r == state.wrapping_add(0x9E37_79B9_7F4A_7C15u64) | 1u64;
    r
}

/// One draw of a noise source: the next xorshift state and the 53-bit
/// numerator of a uniform draw from `[0, 1)` taken from it.
pub fn noise_draw(state: u64) -> (r: (u64, u64))
    ensures
        r.0 == xorshift_step(state),
        r.1 == scramble(r.0) >> 11u64,
        r.1 < 0x20_0000_0000_0000,
        state != 0 ==> r.0 != 0,
{
    proof {
        if state != 0 {
            lemma_step_nonzero(state);
        }
    }
    let next = xorshift_next(state);
    (next, mantissa_bits(next))
}

/// The inverse of `GOLDEN_GAMMA` modulo 2^64.
pub const GOLDEN_GAMMA_INVERSE: u64 = 0xF1DE_83E1_9937_733D;

/// Multiplying by the (odd) golden-ratio constant modulo 2^64 is undone by
/// multiplying by its inverse, so it loses nothing of the counter.
pub proof fn lemma_golden_spread_is_invertible(c: u64)
    ensures
        vstd::wrapping::u64_specs::wrapping_mul(
            vstd::wrapping::u64_specs::wrapping_mul(c, GOLDEN_GAMMA),
            GOLDEN_GAMMA_INVERSE,
        ) == c,
{
    let m: int = 0x1_0000_0000_0000_0000;
    let g: int = GOLDEN_GAMMA as int;
    let gi: int = GOLDEN_GAMMA_INVERSE as int;
    let k: int = 10771413168148108919;
    assert(g * gi == 1 + k * m);
    let w = vstd::wrapping::u64_specs::wrapping_mul(c, GOLDEN_GAMMA);
    assert(w as int == (c as int * g) % m);
    lemma_mul_mod_noop_left(c as int * g, gi, m);
    lemma_mul_is_associative(c as int, g, gi);
    assert(c as int * (g * gi) == c as int + m * (c as int * k)) by (nonlinear_arith)
        requires
            g * gi == 1 + k * m,
    ;
    lemma_mod_multiples_vanish(c as int * k, c as int, m);
    lemma_small_mod(c as nat, m as nat);
}

/// The strike seed keeps the whole strike counter and the note: on one
/// note, strikes with different counters get different seeds, and at one
/// counter, different notes get different seeds.
pub proof fn lemma_strike_seed_distinguishes_strikes(c1: u64, c2: u64, n1: u8, n2: u8)
    ensures
        n1 == n2 && c1 != c2 ==> spec_strike_noise_seed(c1, n1) != spec_strike_noise_seed(c2, n2),
        c1 == c2 && n1 != n2 ==> spec_strike_noise_seed(c1, n1) != spec_strike_noise_seed(c2, n2),
{
    let w1 = vstd::wrapping::u64_specs::wrapping_mul(c1, GOLDEN_GAMMA);
    let w2 = vstd::wrapping::u64_specs::wrapping_mul(c2, GOLDEN_GAMMA);
    let t1 = (n1 as u64) << 32u64;
    let t2 = (n2 as u64) << 32u64;
    lemma_golden_spread_is_invertible(c1);
    lemma_golden_spread_is_invertible(c2);
    assert(w1 ^ t1 == w2 ^ t1 ==> w1 == w2) by (bit_vector);
    let x1 = n1 as u64;
    let x2 = n2 as u64;
    assert(x1 < 256 && x2 < 256 && x1 != x2 ==> (x1 << 32u64) != (x2 << 32u64)) by (bit_vector);
    assert(w1 ^ t1 == w1 ^ t2 ==> t1 == t2) by (bit_vector);
}

} // verus!
