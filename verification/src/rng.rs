//! The seeded xorshift64* generator used for reproducible modal data and
//! for the hammer and key-release noise sources.

use vstd::prelude::*;

verus! {

/// Additive constant (the 64-bit golden ratio) mixed into every seed.
pub const GOLDEN_GAMMA: u64 = 0x9E37_79B9_7F4A_7C15;

/// Output multiplier of xorshift64*.
pub const OUTPUT_MULTIPLIER: u64 = 0x2545_F491_4F6C_DD1D;

/// One xorshift transition with shifts (12, 25, 27).
pub open spec fn xorshift_step(x: u64) -> u64 {
    let a = x ^ (x >> 12u64);
    let b = a ^ (a << 25u64);
    b ^ (b >> 27u64)
}

/// The value a state is turned into when it is handed out: the state times
/// the output multiplier, modulo 2^64.
pub open spec fn scramble(x: u64) -> u64 {
    vstd::wrapping::u64_specs::wrapping_mul(x, OUTPUT_MULTIPLIER)
}

/// The state a generator starts from for a given seed.
pub open spec fn seeded_state(seed: u64) -> u64 {
    vstd::wrapping::u64_specs::wrapping_add(seed, GOLDEN_GAMMA) | 1u64
}

/// Advances a raw xorshift state by one transition.
pub fn xorshift_next(x: u64) -> (r: u64)
    ensures
        r == xorshift_step(x),
{
    let mut y = x;
    y = y ^ (y >> 12u64);
    y = y ^ (y << 25u64);
    y = y ^ (y >> 27u64);
    y
}

/// The 53 high bits of the scrambled state: the numerator of a draw from
/// the unit interval (the denominator being 2^53).
pub fn mantissa_bits(x: u64) -> (r: u64)
    ensures
        r == scramble(x) >> 11u64,
        r < 0x20_0000_0000_0000,
{
    let s = x.wrapping_mul(OUTPUT_MULTIPLIER);
    assert((s >> 11u64) < 0x20_0000_0000_0000u64) by (bit_vector);
    s >> 11u64
}

pub struct DeterministicRandom {
    internal_state: u64,
}

impl View for DeterministicRandom {
    type V = u64;

    closed spec fn view(&self) -> u64 {
        self.internal_state
    }
}

impl DeterministicRandom {
    #[verifier::type_invariant]
    spec fn state_is_nonzero(self) -> bool {
        self.internal_state != 0
    }

    /// Creates a generator whose state is the seed plus the golden-ratio
    /// constant (wrapping), with the lowest bit forced on.
    pub fn new(seed: u64) -> (r: Self)
        ensures
            r@ == seeded_state(seed),
            r@ % 2 == 1,
    {
        let s = seed.wrapping_add(GOLDEN_GAMMA) | 1u64;
        assert(s % 2 == 1) by (bit_vector)
            requires s == seed.wrapping_add(GOLDEN_GAMMA) | 1u64;
        DeterministicRandom { internal_state: s }
    }

    /// Advances the state by one xorshift transition and returns the
    /// scrambled new state.
    pub fn next_u64(&mut self) -> (r: u64)
        ensures
            final(self)@ == xorshift_step(old(self)@),
            r == scramble(final(self)@),
    {
        proof {
            use_type_invariant(&*self);
            lemma_step_nonzero(self.internal_state);
        }
        let x = xorshift_next(self.internal_state);
        self.internal_state = x;
        x.wrapping_mul(OUTPUT_MULTIPLIER)
    }

    /// Advances the generator and returns the 53-bit numerator of a draw
    /// from `[0, 1)`; the draw itself is this value divided by 2^53.
    pub fn next_unit_interval_bits(&mut self) -> (r: u64)
        ensures
            final(self)@ == xorshift_step(old(self)@),
            r == scramble(final(self)@) >> 11u64,
            r < 0x20_0000_0000_0000,
    {
        let raw = self.next_u64();
        assert((raw >> 11u64) < 0x20_0000_0000_0000u64) by (bit_vector);
        raw >> 11u64
    }

    /// Advances the generator and decides the sign of a random sign draw:
    /// negative exactly when the lowest output bit is clear.
    pub fn next_sign_is_negative(&mut self) -> (r: bool)
        ensures
            final(self)@ == xorshift_step(old(self)@),
            r == (scramble(final(self)@) & 1u64 == 0u64),
    {
        let raw = self.next_u64();
        raw & 1u64 == 0u64
    }
}

/// A nonzero state never steps to zero, so the generator never gets stuck.
pub proof fn lemma_step_nonzero(x: u64)
    requires
        x != 0,
    ensures
        xorshift_step(x) != 0,
{
    assert(x != 0 ==> {
        let a = x ^ (x >> 12u64);
        let b = a ^ (a << 25u64);
        (b ^ (b >> 27u64)) != 0
    }) by (bit_vector);
}

/// Each xorshift stage is invertible, hence distinct states have distinct
/// successors: two streams that differ at one point differ at every later
/// point.
pub proof fn lemma_step_injective(x: u64, y: u64)
    requires
        xorshift_step(x) == xorshift_step(y),
    ensures
        x == y,
{
    let ax = x ^ (x >> 12u64);
    let ay = y ^ (y >> 12u64);
    let bx = ax ^ (ax << 25u64);
    let by_ = ay ^ (ay << 25u64);
    assert(bx ^ (bx >> 27u64) == by_ ^ (by_ >> 27u64) ==> bx == by_) by (bit_vector);
    assert(ax ^ (ax << 25u64) == ay ^ (ay << 25u64) ==> ax == ay) by (bit_vector);
    assert(x ^ (x >> 12u64) == y ^ (y >> 12u64) ==> x == y) by (bit_vector);
}

/// Seeding keeps the whole seed: two seeds give the same starting state
/// only when they are equal or one is the other plus one (modulo 2^64),
/// the pair merged by forcing the lowest bit on.
pub proof fn lemma_seeding_keeps_seed(a: u64, b: u64)
    requires
        seeded_state(a) == seeded_state(b),
    ensures
        a == b || vstd::wrapping::u64_specs::wrapping_add(a, 1) == b || vstd::wrapping::u64_specs::wrapping_add(
            b,
            1,
        ) == a,
{
    let sa = vstd::wrapping::u64_specs::wrapping_add(a, GOLDEN_GAMMA);
    let sb = vstd::wrapping::u64_specs::wrapping_add(b, GOLDEN_GAMMA);
    assert(sa | 1u64 == sb | 1u64 ==> sa == sb || sa == sb + 1 || sb == sa + 1) by (bit_vector);
}

} // verus!
