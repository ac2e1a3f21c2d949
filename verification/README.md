# digital_garden

The logic of a personal desktop — a Markdown "digital garden" of linked
notes, a Doom WAD map viewer, a calculator, a timestamp converter, a
workout log and a command palette — written in Verus, with each function's
behaviour stated in its `requires`/`ensures` and proved.

## Layout

- `src/` — the verified library.
  - `digital_garden/` — notes and their frontmatter (`note`), the notes
    directory with backlinks and wiki-link resolution (`note_directory`),
    relevance-ranked search (`search`), browser-style history (`history`),
    navigation between notes (`navigator`), the Markdown renderer's state
    machine (`render_state`) and helpers (`markdown_parser`), themes,
    the note graph's nodes and edges (`graph_view`) and the re-scan
    debounce (`watcher`).
  - `wad.rs` — the WAD archive format and map lumps.
  - `command_palette.rs` — the rows on offer, palette state, fuzzy
    scoring and ranking.
  - `palette.rs` — colour schemes and the stable colour slot of a key.
  - `windows.rs` — which windows are open, and destructive-action
    confirmations.
  - `apps/` — calculator keypad, binary clock readings, timestamp units,
    the workout log and its heat-map calendar, WAD viewer state and other
    small tools.
  - `text.rs` — character and UTF-8 helpers shared by the parsers.
- `tests/` — tests of the library on concrete inputs.
- `app/` — the command-line program and everything the library leaves to
  its caller: file and directory reading, YAML/JSON decoding, reading a
  note's Markdown into the renderer's events with `pulldown-cmark`, the
  filesystem watcher, local-time parsing and floating-point arithmetic.

Calls into `pulldown-cmark`, `chrono` and `std` that the library makes
are wrapped in small trusted functions whose contracts say what the
called code guarantees.
