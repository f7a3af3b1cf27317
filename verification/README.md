# desert_tooling

The logic of the Desert Tooling plugin for Crimson Desert (auto-loot, the
gathering yield multiplier and the in-game settings menu), written in Verus:
every function under `src/` carries a contract that Verus proves.

## Layout

- `src/` — the verified library.
  - `ini.rs`, `schema.rs`, `keys.rs`, `strings.rs`, `text.rs`,
    `utf8_cuts.rs` — the shared ini reader, the settings schema, key-name
    lookup and the string helpers the rest builds on.
  - `looter/` — auto-loot: its settings, the actor model it reads out of the
    game's memory (`memory.rs` holds the memory model), target selection, the
    survey, the event payloads it forges and the send state machine, the
    recorder's caps, the learned-yield tables, and `run.rs`, the decisions of
    the plugin thread's loop.
  - `gatherer/` — the yield multiplier: its settings, the remember table of
    vanilla yields, the record loader's decision and `reapply`, which rewrites
    already parsed records to `remembered × current` and never compounds.
  - `overlay/` — the settings menu: the ini rewrite that keeps other
    sections and comments, the store that flushes and polls the file, the
    presets and the colour-space and theme settings.
- `tests/` — the scenarios, run against the compiled library.
- `app/` — the ordinary Rust around the library: the Windows key-name table,
  the decimal settings, the atomic file writes, and `driver.rs`, which runs
  the plugin thread's loop and the send path by handing the host's answers
  to the library's step functions.

The outside work (hooks, the game's memory, files, the keyboard, the clock)
belongs to the host; the library takes its results as plain values and says
what to do next.
