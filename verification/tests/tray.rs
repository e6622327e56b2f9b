use gaze::animation::BlinkRate;
use gaze::settings::Settings;
use gaze::tray::{
    apply_choices, autostart_tick, SettingsChoices, TrayMenu, TrayResponse, ACTION_AUTOSTART,
    ACTION_TOGGLE,
};

#[test]
fn the_tray_toggles_the_window_and_relabels_its_item() {
    let mut menu = TrayMenu::new();
    assert_eq!(menu.toggle_text(), "Hide");
    assert_eq!(
        menu.handle_pending_action(ACTION_TOGGLE),
        TrayResponse {
            set_visible: Some(false),
            apply_autostart: false,
        }
    );
    assert_eq!(menu.toggle_text(), "Show");
    assert_eq!(
        menu.handle_pending_action(ACTION_TOGGLE | ACTION_AUTOSTART),
        TrayResponse {
            set_visible: Some(true),
            apply_autostart: true,
        }
    );
    assert_eq!(menu.toggle_text(), "Hide");
    assert_eq!(
        menu.handle_pending_action(0),
        TrayResponse {
            set_visible: None,
            apply_autostart: false,
        }
    );
    assert!(menu.window_visible);
}

#[test]
fn a_failed_autostart_change_puts_the_tick_back() {
    assert!(autostart_tick(true, true));
    assert!(!autostart_tick(true, false));
    assert!(autostart_tick(false, false));
    assert!(!autostart_tick(false, true));
}

fn no_choices() -> SettingsChoices {
    SettingsChoices {
        always_on_top: None,
        blink: None,
        opacity_percent: None,
    }
}

#[test]
fn menu_choices_change_only_the_settings_they_name() {
    let mut settings = Settings::default();
    let choices = SettingsChoices {
        always_on_top: Some(true),
        blink: Some(BlinkRate::Slow),
        opacity_percent: None,
    };
    assert!(apply_choices(&mut settings, choices));
    assert_eq!(
        settings,
        Settings {
            always_on_top: true,
            show_on_all_desktops: true,
            opacity_percent: 100,
            blink: BlinkRate::Slow,
        }
    );
    assert!(!apply_choices(&mut settings, choices));

    assert!(apply_choices(
        &mut settings,
        SettingsChoices {
            opacity_percent: Some(25),
            ..no_choices()
        }
    ));
    assert_eq!(settings.opacity_percent, 25);
    assert_eq!(settings.blink, BlinkRate::Slow);
}

#[test]
fn no_choices_leave_the_settings_alone() {
    let mut settings = Settings {
        always_on_top: true,
        show_on_all_desktops: false,
        opacity_percent: 50,
        blink: BlinkRate::Off,
    };
    let before = settings;
    assert!(!apply_choices(&mut settings, no_choices()));
    assert_eq!(settings, before);
    assert!(!apply_choices(
        &mut settings,
        SettingsChoices {
            always_on_top: Some(true),
            blink: Some(BlinkRate::Off),
            opacity_percent: Some(50),
        }
    ));
}
