//! Gaze: the logic behind a desktop pair of eyes that follow the cursor.
//!
//! This crate holds the parts of Gaze that decide things from plain values:
//! the blink-rate setting and the random source that times the animation,
//! the settings file format, the stored window placement and when it is
//! written, the resize borders of the face, what the tray menu's clicks come
//! to, the login-item texts, and which keyboard events count as activity.

mod text;

pub mod animation;
pub mod autostart;
pub mod input_activity;
pub mod macos_window;
pub mod placement;
pub mod resize;
pub mod settings;
pub mod tray;
pub mod utf16;
