use gaze::animation::{initial_random_state, next_random_bits, BlinkRate};

#[test]
fn every_blink_rate_survives_the_settings_file() {
    for rate in BlinkRate::ALL {
        assert_eq!(BlinkRate::from_key(rate.key()), Some(rate));
    }
    assert_eq!(BlinkRate::from_key("nonsense"), None);
}

#[test]
fn labels_and_keys_name_each_rate() {
    assert_eq!(BlinkRate::Standard.label(), "Standard");
    assert_eq!(BlinkRate::Slow.label(), "Slow");
    assert_eq!(BlinkRate::Off.label(), "Off");
    assert_eq!(BlinkRate::Standard.key(), "standard");
    assert_eq!(BlinkRate::Slow.key(), "slow");
    assert_eq!(BlinkRate::Off.key(), "off");
    assert_eq!(BlinkRate::default(), BlinkRate::Standard);
}

#[test]
fn keys_are_matched_exactly() {
    assert_eq!(BlinkRate::from_key("Slow"), None);
    assert_eq!(BlinkRate::from_key(" slow"), None);
    assert_eq!(BlinkRate::from_key(""), None);
    assert_eq!(BlinkRate::from_key("off"), Some(BlinkRate::Off));
}

#[test]
fn the_slow_rate_doubles_the_wait_between_blinks() {
    assert_eq!(BlinkRate::Standard.interval_factor(), 1);
    assert_eq!(BlinkRate::Slow.interval_factor(), 2);
    assert_eq!(BlinkRate::Off.interval_factor(), 1);
}

/// The generator written out in plain Rust, to hold the library to.
fn reference_step(state: u64) -> (u64, u32) {
    let mut value = state;
    value ^= value >> 12;
    value ^= value << 25;
    value ^= value >> 27;
    (value, (value.wrapping_mul(0x2545_f491_4f6c_dd1d) >> 40) as u32)
}

#[test]
fn random_bits_follow_xorshift64_star() {
    let mut state = 1_u64;
    let mut expected = 1_u64;
    for _ in 0..1000 {
        let sample = next_random_bits(&mut state);
        let (next, bits) = reference_step(expected);
        expected = next;
        assert_eq!(state, expected);
        assert_eq!(sample, bits);
        assert!(sample < 1 << 24);
    }
}

#[test]
fn random_bits_from_state_one() {
    let mut state = 1_u64;
    let sample = next_random_bits(&mut state);
    assert_eq!(state, 0x0000_0000_0200_0001 ^ (0x0000_0000_0200_0001 >> 27));
    assert_eq!(sample, (state.wrapping_mul(0x2545_f491_4f6c_dd1d) >> 40) as u32);
}

#[test]
fn a_zero_seed_still_gives_a_running_generator() {
    assert_eq!(initial_random_state(0), 1);
    assert_eq!(initial_random_state(42), 42);
    let mut state = initial_random_state(0);
    for _ in 0..10_000 {
        next_random_bits(&mut state);
        assert_ne!(state, 0);
    }
}
