use gaze::animation::BlinkRate;
use gaze::settings::{parse, serialize, Settings, MIN_OPACITY, OPACITY_CHOICES};

#[test]
fn round_trips_through_the_settings_file_format() {
    let settings = Settings {
        always_on_top: true,
        show_on_all_desktops: false,
        opacity_percent: 50,
        blink: BlinkRate::Slow,
    };
    assert_eq!(parse(&serialize(settings)), settings);
}

#[test]
fn a_file_written_before_desktops_were_a_setting_still_loads() {
    let settings = parse("always_on_top=true\nopacity=50\n");
    assert!(settings.always_on_top);
    assert_eq!(settings.opacity_percent, 50);
    assert!(
        settings.show_on_all_desktops,
        "following the user between desktops is the default"
    );
    assert_eq!(settings.blink, BlinkRate::Standard);
}

#[test]
fn an_unknown_blink_rate_falls_back_to_the_standard_one() {
    assert_eq!(parse("blink=glacial\n").blink, BlinkRate::Standard);
    assert_eq!(parse("blink=off\n").blink, BlinkRate::Off);
}

#[test]
fn unknown_or_malformed_lines_keep_the_defaults() {
    assert_eq!(
        parse("# comment\nwindow_level\nopacity=not-a-number\n"),
        Settings::default()
    );
}

#[test]
fn opacity_stays_within_a_visible_range() {
    assert_eq!(parse("opacity=0").opacity_percent, MIN_OPACITY);
    assert_eq!(parse("opacity=200").opacity_percent, 100);
    let opacity = f32::from(Settings::default().visible_opacity_percent()) / 100.0;
    assert!((opacity - 1.0).abs() < f32::EPSILON);
}

#[test]
fn the_file_lists_every_setting_on_a_line_of_its_own() {
    let settings = Settings {
        always_on_top: true,
        show_on_all_desktops: false,
        opacity_percent: 75,
        blink: BlinkRate::Off,
    };
    assert_eq!(
        serialize(settings),
        "always_on_top=true\nshow_on_all_desktops=false\nopacity=75\nblink=off\n"
    );
    assert_eq!(
        serialize(Settings::default()),
        "always_on_top=false\nshow_on_all_desktops=true\nopacity=100\nblink=standard\n"
    );
}

#[test]
fn an_out_of_range_opacity_is_written_within_range() {
    let faint = Settings {
        opacity_percent: 3,
        ..Settings::default()
    };
    assert!(serialize(faint).contains("opacity=10\n"));
    assert_eq!(parse(&serialize(faint)).opacity_percent, 10);
    let loud = Settings {
        opacity_percent: 255,
        ..Settings::default()
    };
    assert_eq!(parse(&serialize(loud)).opacity_percent, 100);
    assert_eq!(loud.visible_opacity_percent(), 100);
    assert_eq!(faint.visible_opacity_percent(), 10);
}

#[test]
fn every_offered_setting_round_trips() {
    for always_on_top in [false, true] {
        for show_on_all_desktops in [false, true] {
            for opacity_percent in OPACITY_CHOICES {
                for blink in BlinkRate::ALL {
                    let settings = Settings {
                        always_on_top,
                        show_on_all_desktops,
                        opacity_percent,
                        blink,
                    };
                    assert_eq!(parse(&serialize(settings)), settings);
                }
            }
        }
    }
}

#[test]
fn whitespace_and_carriage_returns_around_values_are_ignored() {
    let settings = parse("  always_on_top = true \r\nopacity=\t25\r\nblink= slow\u{a0}\r\n");
    assert!(settings.always_on_top);
    assert_eq!(settings.opacity_percent, 25);
    assert_eq!(settings.blink, BlinkRate::Slow);
}

#[test]
fn the_last_line_of_a_key_wins_and_the_first_equals_sign_splits() {
    let settings = parse("opacity=30\nopacity=60\nalways_on_top=true=\n");
    assert_eq!(settings.opacity_percent, 60);
    assert!(!settings.always_on_top);
}

#[test]
fn opacity_is_read_as_str_parse_reads_a_u8() {
    assert_eq!(parse("opacity=+40").opacity_percent, 40);
    assert_eq!(parse("opacity=040").opacity_percent, 40);
    assert_eq!(parse("opacity=-40").opacity_percent, 100);
    assert_eq!(parse("opacity=256").opacity_percent, 100);
    assert_eq!(parse("opacity=").opacity_percent, 100);
    assert_eq!(parse("opacity=+").opacity_percent, 100);
    assert_eq!(parse("opacity=4 0").opacity_percent, 100);
}

#[test]
fn an_empty_file_is_all_defaults() {
    assert_eq!(parse(""), Settings::default());
    assert_eq!(
        Settings::default(),
        Settings {
            always_on_top: false,
            show_on_all_desktops: true,
            opacity_percent: 100,
            blink: BlinkRate::Standard,
        }
    );
}
