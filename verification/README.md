# Gaze

A pair of eyes on the desktop that follow the mouse cursor, blink, yawn and
fall asleep when left alone.

The crate is split in two:

- `src/` is the `gaze` library, verified with Verus: the settings file format,
  the stored window placement (its text, its UTF-16 registry form, and when a
  change is written back), the hit test that turns the face's edges into
  resize borders, the tray menu's decisions, the login-item texts, which
  keyboard events count as activity, and the random source behind the
  animation's timing. Every public function carries a contract, and the laws
  that tie the functions together (a settings file reads back as written, a
  stored placement reads back as written, an escaped path reads back as the
  path, a still window is written once) are proof functions beside them.
- `app/` is the program around it: the egui window and its painting, the
  floating-point animation, and the calls into Windows, macOS and the tray
  icon that read and write what the library describes.

`tests/` runs the library on concrete values.
