# sova_desktop

The state and decision logic of the Sova desktop client, written in Verus: every
function in `src/` carries a contract that Verus proves.

## Layout

- `src/` — the verified library
  - `scene_nav.rs` — the scene panel: cursor, selection, clipboard, frame and line moves,
    keyboard and context-menu decisions, inline edits, confirmations
  - `sample_scan.rs`, `sample_tree.rs`, `browser_laws.rs` — the sample library: scanning
    listings into a tree, flattening it into lines, browsing, searching and locating a
    sample's file
  - `browser_panel.rs` — the sample browser panel around the tree
  - `markdown.rs` — splitting documentation into prose and runnable code blocks
  - `log.rs`, `devices.rs`, `doc_panel.rs`, `server.rs`, `session.rs`, `settings.rs`,
    `tools.rs`, `transport.rs`, `sequencer.rs` — the other panels' state machines
  - `text.rs` — character-level helpers: trimming, case folding, decimal numbers
- `tests/` — tests on concrete values
- `app/` — the command-line program around the library: file system access, settings
  persistence through `confy`/`serde`, and the few computations on floating point numbers
