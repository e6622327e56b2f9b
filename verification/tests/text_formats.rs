use gaze::macos_window::collection_behavior;
use gaze::utf16::wide;

#[test]
fn windows_strings_are_utf16_with_a_terminator() {
    assert_eq!(wide("Gaze"), vec![0x47, 0x61, 0x7a, 0x65, 0]);
    assert_eq!(wide(""), vec![0]);
    let text = "aé€😀";
    let mut expected: Vec<u16> = text.encode_utf16().collect();
    expected.push(0);
    assert_eq!(wide(text), expected);
    assert_eq!(wide("😀"), vec![0xd83d, 0xde00, 0]);
}

#[test]
fn every_desktop_joins_all_spaces_including_full_screen_ones() {
    assert_eq!(collection_behavior(true), (1 << 0) | (1 << 8));
    assert_eq!(collection_behavior(false), 0);
}
