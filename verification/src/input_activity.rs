//! Which keyboard events count as the user being active, and when a frame
//! has seen new ones.

use vstd::prelude::*;

verus! {

/// The flag Raw Input sets on a key's release (`RI_KEY_BREAK`).
pub const KEY_BREAK: u16 = 1;

/// The virtual key code of keyboard events that come from no real key.
pub const FAKE_KEY: u16 = 255;

/// Whether a Raw Input keyboard event is a key going down (or repeating),
/// rather than a release or an event from no real key.
pub fn is_keyboard_press(flags: u16, virtual_key: u16) -> (press: bool)
    ensures
        press == ((flags & KEY_BREAK) == 0 && virtual_key != FAKE_KEY),
{
    flags & KEY_BREAK == 0 && virtual_key != FAKE_KEY
}

/// Whether a frame that saw `marker` shows input since the marker `last`
/// recorded before.
pub open spec fn shows_input(last: Option<u32>, marker: Option<u32>) -> bool {
    marker is Some && last != marker
}

/// The marker recorded after a frame that saw `marker`: the new one when the
/// frame had one, else the one recorded before.
pub open spec fn recorded_marker(last: Option<u32>, marker: Option<u32>) -> Option<u32> {
    if marker is Some {
        marker
    } else {
        last
    }
}

/// Records the keyboard-activity marker a frame saw, a count of key presses
/// or the time of the latest one, and says whether it shows input since the
/// marker recorded before: it does when it differs from that one. A frame
/// with no marker shows no input and records nothing.
pub fn note_input_marker(last: &mut Option<u32>, marker: Option<u32>) -> (changed: bool)
    ensures
        changed == shows_input(*old(last), marker),
        *final(last) == recorded_marker(*old(last), marker),
{
    match marker {
        Some(value) => {
            let changed = *last != Some(value);
            *last = Some(value);
            changed
        },
        None => false,
    }
}

/// Seeing the same marker again shows no new input.
pub proof fn lemma_same_marker_is_no_input(last: Option<u32>, marker: Option<u32>)
    ensures
        !shows_input(recorded_marker(last, marker), marker),
        recorded_marker(recorded_marker(last, marker), marker) == recorded_marker(last, marker),
{
}

} // verus!
