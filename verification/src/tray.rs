//! What the tray menu's clicks come to.
//!
//! The menu's event handler runs on a thread of its own; it only records
//! which items were clicked, as bits such as `ACTION_TOGGLE | ACTION_AUTOSTART`,
//! and which rate or opacity was picked last, and the window acts on them on
//! its next frame.

use vstd::prelude::*;

use crate::animation::BlinkRate;
use crate::settings::Settings;

verus! {

/// The show/hide item was clicked.
pub const ACTION_TOGGLE: u8 = 1;

/// The start-with-Windows item was clicked.
pub const ACTION_AUTOSTART: u8 = 2;

/// The always-on-top item was clicked.
pub const ACTION_ALWAYS_ON_TOP: u8 = 4;

/// What the window does about the clicks recorded since its last frame.
#[derive(Clone, Copy, Debug, PartialEq, Eq, Structural)]
pub struct TrayResponse {
    /// Show or hide the window, when the show/hide item was clicked.
    pub set_visible: Option<bool>,
    /// Apply the start-with-Windows item's new tick.
    pub apply_autostart: bool,
}

/// The tray menu's own state: whether it last showed or hid the window.
pub struct TrayMenu {
    pub window_visible: bool,
}

/// Whether the window is visible after the clicks in `pending`.
pub open spec fn visibility_after(visible: bool, pending: u8) -> bool {
    if (pending & ACTION_TOGGLE) != 0 {
        !visible
    } else {
        visible
    }
}

/// The text of the show/hide item while the window is `visible` or not.
pub open spec fn toggle_text(visible: bool) -> Seq<char> {
    if visible {
        seq!['H', 'i', 'd', 'e']
    } else {
        seq!['S', 'h', 'o', 'w']
    }
}

impl TrayMenu {
    /// The menu of a window that has just been shown.
    pub fn new() -> (menu: Self)
        ensures
            menu.window_visible,
    {
        TrayMenu { window_visible: true }
    }

    /// Acts on the clicks recorded in `pending`.
    pub fn handle_pending_action(&mut self, pending: u8) -> (response: TrayResponse)
        ensures
            final(self).window_visible == visibility_after(old(self).window_visible, pending),
            response.set_visible == if (pending & ACTION_TOGGLE) != 0 {
                Some(final(self).window_visible)
            } else {
                None::<bool>
            },
            response.apply_autostart == ((pending & ACTION_AUTOSTART) != 0),
    {
        let mut set_visible = None;
        if pending & ACTION_TOGGLE != 0 {
            self.window_visible = !self.window_visible;
            set_visible = Some(self.window_visible);
        }
        TrayResponse { set_visible, apply_autostart: pending & ACTION_AUTOSTART != 0 }
    }

    /// The text the show/hide item carries now.
    pub fn toggle_text(&self) -> (text: &'static str)
        ensures
            text@ == toggle_text(self.window_visible),
    {
        if self.window_visible {
            proof {
                reveal_strlit("Hide");
            }
            "Hide"
        } else {
            proof {
                reveal_strlit("Show");
            }
            "Show"
        }
    }
}

/// The tick to put back on the start-with-Windows item after trying to apply
/// `requested`: the requested one if applying it worked, the previous one if
/// it failed, so the menu never claims a setting that is not in place.
pub fn autostart_tick(requested: bool, applied: bool) -> (tick: bool)
    ensures
        tick == if applied {
            requested
        } else {
            !requested
        },
{
    if applied {
        requested
    } else {
        !requested
    }
}

/// What the menu's settings items were set to since the last frame.
#[derive(Clone, Copy, Debug, PartialEq, Eq, Structural)]
pub struct SettingsChoices {
    /// The always-on-top item's tick, when it was clicked.
    pub always_on_top: Option<bool>,
    /// The blinking rate picked last, if one was.
    pub blink: Option<BlinkRate>,
    /// The opacity picked last, in percent, if one was.
    pub opacity_percent: Option<u8>,
}

/// `settings` with the choices made in the menu applied; a setting that was
/// not touched keeps its value.
pub open spec fn chosen_settings(settings: Settings, choices: SettingsChoices) -> Settings {
    Settings {
        always_on_top: match choices.always_on_top {
            Some(on_top) => on_top,
            None => settings.always_on_top,
        },
        blink: match choices.blink {
            Some(rate) => rate,
            None => settings.blink,
        },
        opacity_percent: match choices.opacity_percent {
            Some(percent) => percent,
            None => settings.opacity_percent,
        },
        ..settings
    }
}

/// Applies the choices made in the menu to `settings`, and says whether that
/// changed anything, so that the window is only updated and the settings file
/// only written when it did.
pub fn apply_choices(settings: &mut Settings, choices: SettingsChoices) -> (changed: bool)
    ensures
        *final(settings) == chosen_settings(*old(settings), choices),
        changed == (*final(settings) != *old(settings)),
        choices.always_on_top is Some ==> final(settings).always_on_top
            == choices.always_on_top->0,
        choices.blink is Some ==> final(settings).blink == choices.blink->0,
        choices.opacity_percent is Some ==> final(settings).opacity_percent
            == choices.opacity_percent->0,
        changed == made_a_change(*old(settings), choices),
{
    proof {
        lemma_made_choices_are_taken(*old(settings), choices);
    }
    let before = *settings;
    if let Some(on_top) = choices.always_on_top {
        settings.always_on_top = on_top;
    }
    if let Some(rate) = choices.blink {
        settings.blink = rate;
    }
    if let Some(percent) = choices.opacity_percent {
        settings.opacity_percent = percent;
    }
    *settings != before
}

/// Whether some choice in `choices` differs from the setting it names.
pub open spec fn made_a_change(settings: Settings, choices: SettingsChoices) -> bool {
    ||| choices.always_on_top is Some && choices.always_on_top->0 != settings.always_on_top
    ||| choices.blink is Some && choices.blink->0 != settings.blink
    ||| choices.opacity_percent is Some && choices.opacity_percent->0
        != settings.opacity_percent
}

/// A choice made in the menu is the value the setting takes, whatever it was
/// before, switching a setting on or off, raising the opacity or lowering it
/// alike; a setting no choice names keeps its value; and the settings change
/// exactly when some choice differs from the setting it names.
pub proof fn lemma_made_choices_are_taken(settings: Settings, choices: SettingsChoices)
    ensures
        ({
            let after = chosen_settings(settings, choices);
            &&& forall|on_top: bool|
                choices.always_on_top == Some(on_top) ==> after.always_on_top == on_top
            &&& forall|rate: BlinkRate| choices.blink == Some(rate) ==> after.blink == rate
            &&& forall|percent: u8|
                choices.opacity_percent == Some(percent) ==> after.opacity_percent == percent
            &&& choices.always_on_top is None ==> after.always_on_top == settings.always_on_top
            &&& choices.blink is None ==> after.blink == settings.blink
            &&& choices.opacity_percent is None ==> after.opacity_percent
                == settings.opacity_percent
            &&& after.show_on_all_desktops == settings.show_on_all_desktops
            &&& (after != settings) == made_a_change(settings, choices)
        }),
{
}

/// Making the same choices again changes nothing more, and making none
/// leaves the settings as they were.
pub proof fn lemma_choices_settle(settings: Settings, choices: SettingsChoices)
    ensures
        chosen_settings(chosen_settings(settings, choices), choices) == chosen_settings(
            settings,
            choices,
        ),
        chosen_settings(
            settings,
            SettingsChoices { always_on_top: None, blink: None, opacity_percent: None },
        ) == settings,
{
}

/// Acting on the same clicks twice leaves the window as it was, and the
/// show/hide item's text always changes when the window does.
pub proof fn lemma_toggle_twice(visible: bool, pending: u8)
    ensures
        visibility_after(visibility_after(visible, pending), pending) == visible,
        visibility_after(visible, pending) != visible ==> toggle_text(visibility_after(
            visible,
            pending,
        )) != toggle_text(visible),
{
}

} // verus!
