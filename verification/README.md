# keyboard_dances

A desktop application that plays one sound when a key goes down and another
when it comes up, with named sound profiles.

- `src/` is the verified library: profile-name normalization, the layout of
  the settings and profile files, which directory entries are profiles and
  in which order they are listed, the checks before a profile is saved,
  renamed or deleted, where imported sounds go, which profile comes next,
  what a key event plays, the error texts, and the tray icon's pixels.
  Paths are text with Unix path semantics.
- `app/` is the program around it: file I/O, TOML files, audio decoding and
  playback, the Linux input listener, the Tauri window and tray, and a
  command-line player.
- `tests/` exercises the library on concrete values.

`app/` uses `tauri`, which `Cargo.toml` does not list (it would more than
double the dependency tree), so the window application does not build as the
tree stands. `input` and `rfd` need the libinput and GTK system libraries.
The bundled sample sounds are not part of this tree; a silent WAV stands in
for them.
