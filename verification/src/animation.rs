//! How often Gaze blinks, and the random source that times its animation.

use vstd::prelude::*;

use crate::text::{chars_of, range_equals};

verus! {

/// How often Gaze blinks, as offered in the settings menu.
#[derive(Clone, Copy, Debug, PartialEq, Eq, Structural)]
pub enum BlinkRate {
    Standard,
    Slow,
    Off,
}

/// The name a rate is shown under in the settings menu.
pub open spec fn label_of(rate: BlinkRate) -> Seq<char> {
    match rate {
        BlinkRate::Standard => seq!['S', 't', 'a', 'n', 'd', 'a', 'r', 'd'],
        BlinkRate::Slow => seq!['S', 'l', 'o', 'w'],
        BlinkRate::Off => seq!['O', 'f', 'f'],
    }
}

/// The name a rate is written under in the settings file.
pub open spec fn key_of(rate: BlinkRate) -> Seq<char> {
    match rate {
        BlinkRate::Standard => seq!['s', 't', 'a', 'n', 'd', 'a', 'r', 'd'],
        BlinkRate::Slow => seq!['s', 'l', 'o', 'w'],
        BlinkRate::Off => seq!['o', 'f', 'f'],
    }
}

/// The rate whose settings-file name is `key`, if any.
pub open spec fn rate_of_key(key: Seq<char>) -> Option<BlinkRate> {
    if key == key_of(BlinkRate::Standard) {
        Some(BlinkRate::Standard)
    } else if key == key_of(BlinkRate::Slow) {
        Some(BlinkRate::Slow)
    } else if key == key_of(BlinkRate::Off) {
        Some(BlinkRate::Off)
    } else {
        None
    }
}

impl Default for BlinkRate {
    fn default() -> (rate: Self)
        ensures
            rate == BlinkRate::Standard,
    {
        BlinkRate::Standard
    }
}

impl BlinkRate {
    /// Every rate, in the order the menu offers them.
    pub const ALL: [BlinkRate; 3] = [BlinkRate::Standard, BlinkRate::Slow, BlinkRate::Off];

    pub fn label(self) -> (name: &'static str)
        ensures
            name@ == label_of(self),
    {
        match self {
            BlinkRate::Standard => {
                proof { reveal_strlit("Standard"); }
                "Standard"
            },
            BlinkRate::Slow => {
                proof { reveal_strlit("Slow"); }
                "Slow"
            },
            BlinkRate::Off => {
                proof { reveal_strlit("Off"); }
                "Off"
            },
        }
    }

    /// The name this is written under in the settings file.
    pub fn key(self) -> (name: &'static str)
        ensures
            name@ == key_of(self),
    {
        match self {
            BlinkRate::Standard => {
                proof { reveal_strlit("standard"); }
                "standard"
            },
            BlinkRate::Slow => {
                proof { reveal_strlit("slow"); }
                "slow"
            },
            BlinkRate::Off => {
                proof { reveal_strlit("off"); }
                "off"
            },
        }
    }

    pub fn from_key(key: &str) -> (rate: Option<Self>)
        ensures
            rate == rate_of_key(key@),
    {
        let chars = chars_of(key);
        assert(chars@.subrange(0, chars@.len() as int) =~= chars@);
        Self::from_key_in(&chars, 0, chars.len())
    }

    /// The rate whose settings-file name is `s[start..end]`, if any.
    pub(crate) fn from_key_in(s: &[char], start: usize, end: usize) -> (rate: Option<Self>)
        requires
            start <= end <= s@.len(),
        ensures
            rate == rate_of_key(s@.subrange(start as int, end as int)),
    {
        let standard = chars_of(BlinkRate::Standard.key());
        if range_equals(s, start, end, &standard) {
            return Some(BlinkRate::Standard);
        }
        let slow = chars_of(BlinkRate::Slow.key());
        if range_equals(s, start, end, &slow) {
            return Some(BlinkRate::Slow);
        }
        let off = chars_of(BlinkRate::Off.key());
        if range_equals(s, start, end, &off) {
            return Some(BlinkRate::Off);
        }
        None
    }

    /// How many times longer the wait between blinks is than at the standard
    /// rate. Doubling it lands near the rate a person reading holds.
    pub fn interval_factor(self) -> (factor: u8)
        ensures
            factor == (if self == BlinkRate::Slow { 2u8 } else { 1u8 }),
    {
        match self {
            BlinkRate::Standard | BlinkRate::Off => 1,
            BlinkRate::Slow => 2,
        }
    }
}

/// Every rate read back from its settings-file name is the rate itself, and
/// no two rates share a name.
pub proof fn lemma_key_round_trip(rate: BlinkRate)
    ensures
        rate_of_key(key_of(rate)) == Some(rate),
{
    assert(key_of(BlinkRate::Standard) != key_of(BlinkRate::Slow)) by {
        assert(key_of(BlinkRate::Standard).len() != key_of(BlinkRate::Slow).len());
    }
    assert(key_of(BlinkRate::Standard) != key_of(BlinkRate::Off)) by {
        assert(key_of(BlinkRate::Standard).len() != key_of(BlinkRate::Off).len());
    }
    assert(key_of(BlinkRate::Slow) != key_of(BlinkRate::Off)) by {
        assert(key_of(BlinkRate::Slow).len() != key_of(BlinkRate::Off).len());
    }
}

/// The multiplier of the xorshift64* generator.
pub const RANDOM_MULTIPLIER: u64 = 0x2545_f491_4f6c_dd1d;

/// One step of the xorshift64 state.
pub open spec fn xorshift(v: u64) -> u64 {
    let a = v ^ (v >> 12u64);
    let b = a ^ (a << 25u64);
    b ^ (b >> 27u64)
}

/// The 24 random bits xorshift64* draws from the state `v`: the top bits of
/// the state times the multiplier, wrapping.
pub open spec fn random_bits(v: u64) -> u32 {
    ((((v as nat * RANDOM_MULTIPLIER as nat) % 0x1_0000_0000_0000_0000) as u64) >> 40u64) as u32
}

/// The generator's state for `seed`. A zero state would stay zero for ever,
/// so a zero seed starts from one instead.
pub fn initial_random_state(seed: u64) -> (state: u64)
    ensures
        state == if seed == 0 {
            1
        } else {
            seed
        },
        state != 0,
{
    if seed == 0 {
        1
    } else {
        seed
    }
}

/// Advances the xorshift64* generator and returns 24 random bits from it,
/// enough for an `f32` fraction in `[0, 1)` once divided by `2^24`.
pub fn next_random_bits(random_state: &mut u64) -> (sample: u32)
    ensures
        *final(random_state) == xorshift(*old(random_state)),
        sample == random_bits(*final(random_state)),
        sample < 0x100_0000,
{
    let mut value = *random_state;
    value ^= value >> 12;
    value ^= value << 25;
    value ^= value >> 27;
    *random_state = value;
    let product = value.wrapping_mul(RANDOM_MULTIPLIER);
    let shifted = product >> 40;
    assert(shifted < 0x100_0000) by (bit_vector)
        requires
            shifted == product >> 40u64,
    ;
    shifted as u32
}

/// The generator never reaches the zero state from any other: each of its
/// three xor-shift steps keeps a nonzero value nonzero.
pub proof fn lemma_xorshift_nonzero(v: u64)
    requires
        v != 0,
    ensures
        xorshift(v) != 0,
{
    let a = v ^ (v >> 12u64);
    assert(a != 0) by (bit_vector)
        requires
            v != 0,
            a == v ^ (v >> 12u64),
    ;
    let b = a ^ (a << 25u64);
    assert(b != 0) by (bit_vector)
        requires
            a != 0,
            b == a ^ (a << 25u64),
    ;
    let r = b ^ (b >> 27u64);
    assert(r != 0) by (bit_vector)
        requires
            b != 0,
            r == b ^ (b >> 27u64),
    ;
}

} // verus!
