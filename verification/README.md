# tf_rs

The configuration, player-database, menu and overlay logic of an in-game
overlay for Team Fortress 2, written in Verus. Every function in `src/`
carries a contract; Verus proves all of them except two small wrappers around
std, `String::push` (`text.rs`) and `std::str::from_utf8` (`menu.rs`), whose
contracts are trusted.

## Layout

- `src/text.rs` — character-sequence helpers: lines, trimming, splitting,
  decimal numbers, and the facts about them that the file formats need.
- `src/record.rs` — the text format of settings: one `name: value` line per
  field, with nested settings as indented blocks.
- `src/config.rs`, `src/config_text.rs` — the settings, their defaults, the
  text of the settings that hold no colors (with proved round trips), and the
  names of saved configurations.
- `src/config_file.rs` — the text of whole configurations, with each color's
  text handed in and handed back as a string.
- `src/state.rs`, `src/globals.rs` — the state kept for the whole run.
- `src/player_db.rs` — a category for each player, four editable category
  names, and the line format of the database file (with a proved
  save-then-load round trip).
- `src/input.rs`, `src/flags.rs` — key bindings and the input decisions.
- `src/menu.rs`, `src/menu_state.rs` — the menu's texts, what it keeps from one
  frame to the next, and how it answers clicks.
- `src/spectators.rs` — the spectator list.
- `src/esp.rs` — what the overlay draws for each entity, and the drawing
  commands for all entities of a frame.
- `src/pattern.rs` — byte patterns, memory-map lines, and the first match of
  a pattern in a region.
- `src/camera.rs` — the third-person camera toggle.
- `src/movement.rs` — the jump button while hopping, when the aim fires, and
  what the tick hook returns.
- `app/` — the program around the library: state behind locks, files in the
  home directory, colors as decimal text, the overlay pass, and the memory
  scan.
- `tests/` — tests of the library on concrete values.
