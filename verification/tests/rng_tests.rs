use shade::rng::{DeterministicRandom, xorshift_next, mantissa_bits};
use shade::noise::{
    strike_noise_seed, hammer_noise_state_for_strike, release_noise_state_for_strike,
    release_noise_state_after_key_release, noise_draw, INITIAL_HAMMER_NOISE_STATE,
    INITIAL_RELEASE_NOISE_STATE,
};

#[test]
fn seed_zero_stream() {
    let mut random = DeterministicRandom::new(0);
    assert_eq!(random.next_u64(), 973819730272012410);
    assert_eq!(random.next_u64(), 6108091081255984487);
    assert_eq!(random.next_u64(), 12125365036566318712);
}

#[test]
fn seed_forty_two_stream() {
    let mut random = DeterministicRandom::new(42);
    assert_eq!(random.next_u64(), 590690077802032154);
    assert_eq!(random.next_u64(), 539994873130563277);
}

#[test]
fn same_seed_same_stream() {
    let mut first = DeterministicRandom::new(20240903);
    let mut second = DeterministicRandom::new(20240903);
    for _ in 0..1000 {
        assert_eq!(first.next_u64(), second.next_u64());
    }
}

#[test]
fn different_seeds_differ() {
    let mut first = DeterministicRandom::new(1);
    let mut second = DeterministicRandom::new(3);
    assert_ne!(first.next_u64(), second.next_u64());
}

#[test]
fn forced_low_bit_pairs_seeds() {
    // The golden-ratio constant is odd, so seeds 1 and 2 reach the same
    // odd starting state once the lowest bit is forced on.
    let mut first = DeterministicRandom::new(1);
    let mut second = DeterministicRandom::new(2);
    assert_eq!(first.next_u64(), second.next_u64());
}

#[test]
fn unit_interval_bits_are_high_bits() {
    let mut random = DeterministicRandom::new(0);
    let bits = random.next_unit_interval_bits();
    assert_eq!(bits, 475497915171881);
    assert!(bits < (1u64 << 53));
    let draw = bits as f64 / (1u64 << 53) as f64;
    assert!((0.0..1.0).contains(&draw));
}

#[test]
fn sign_follows_lowest_bit() {
    let mut random = DeterministicRandom::new(0);
    assert!(random.next_sign_is_negative());
    assert!(!random.next_sign_is_negative());
    assert!(random.next_sign_is_negative());
}

#[test]
fn xorshift_of_one() {
    assert_eq!(xorshift_next(1), 0x2000001);
    assert_eq!(mantissa_bits(0x2000001), 2529537253518747);
}

#[test]
fn long_stream_never_zero() {
    let mut state = 1u64;
    for _ in 0..100_000 {
        state = xorshift_next(state);
        assert_ne!(state, 0);
    }
}

#[test]
fn strike_seed_mixes_counter_and_note() {
    assert_eq!(strike_noise_seed(7, 60), 0x5384542e7b096493);
    assert_eq!(strike_noise_seed(0, 0), 0);
    assert_eq!(strike_noise_seed(0, 1), 1u64 << 32);
}

#[test]
fn noise_states_are_odd() {
    assert_eq!(hammer_noise_state_for_strike(0), 1);
    assert_eq!(hammer_noise_state_for_strike(6), 7);
    assert_eq!(release_noise_state_for_strike(0x1234), 0x5a5a5a5a5a5a486f);
    assert_eq!(
        release_noise_state_after_key_release(INITIAL_RELEASE_NOISE_STATE),
        0xc37d6e4aceb7592b
    );
    assert_eq!(INITIAL_HAMMER_NOISE_STATE, 1);
}

#[test]
fn noise_draw_advances_state() {
    let (state, bits) = noise_draw(1);
    assert_eq!(state, 0x2000001);
    assert_eq!(bits, 2529537253518747);
    let sample = 2.0 * (bits as f64 / (1u64 << 53) as f64) - 1.0;
    assert!((-1.0..1.0).contains(&sample));
}
