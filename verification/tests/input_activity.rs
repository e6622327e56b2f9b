use gaze::input_activity::{is_keyboard_press, note_input_marker, KEY_BREAK};

#[test]
fn key_make_and_repeat_are_activity() {
    assert!(is_keyboard_press(0, b'A' as u16));
}

#[test]
fn key_release_and_fake_key_are_not_activity() {
    assert!(!is_keyboard_press(KEY_BREAK, b'A' as u16));
    assert!(!is_keyboard_press(0, 255));
}

#[test]
fn other_flags_do_not_hide_a_press() {
    assert!(is_keyboard_press(2, 0x41));
    assert!(!is_keyboard_press(3, 0x41));
}

#[test]
fn a_new_marker_is_input_and_the_same_one_again_is_not() {
    let mut last = None;
    assert!(!note_input_marker(&mut last, None));
    assert_eq!(last, None);
    assert!(note_input_marker(&mut last, Some(0)));
    assert_eq!(last, Some(0));
    assert!(!note_input_marker(&mut last, Some(0)));
    assert!(!note_input_marker(&mut last, None));
    assert_eq!(last, Some(0));
    assert!(note_input_marker(&mut last, Some(3)));
    assert_eq!(last, Some(3));
}
