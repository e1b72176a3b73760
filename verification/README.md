# ferrite

The editing core of the Ferrite markdown editor, written in Verus. The
functions in `src/` carry contracts that Verus proves, except the small
wrappers marked `#[verifier::external_body]`: each makes one call into an
outside crate or std (ropey, chrono, sys-locale, std's hasher and clock), and
its contract is trusted, not proved; its doc comment says what it claims.
Two functions state no result: `Language::from_system_locale` (the system
locale decides it) and `LogLevel::to_level_filter` (its result is `log`'s
opaque `LevelFilter`).

- `cursor`: cursor positions and selections, with their document order.
- `text`: the mathematical model of text (lines, line breaks, UTF-8 offsets).
- `buffer`: a rope-backed text buffer (ropey), specified over `Seq<char>`.
- `history`: undo/redo of insert and delete operations, grouped in time.
- `input`: keyboard and text input: cursor movement, word and page moves,
  typing, deletion, with and without a selection.
- `editor`: the editor state with multiple cursors, merging of overlapping
  selections, multi-cursor editing, find/replace, auto-closing brackets.
- `line_cache`: a least-recently-used cache of laid-out lines, bounded to
  200 entries.
- `settings`, `settings_rules`: keyboard shortcuts, languages, display
  settings, and the ranges and recent-path lists that stored settings obey.
- `snippets`: trigger/expansion snippets and their application at the cursor.
- `persistence`: the names of the configuration files.

Laws that span several functions are public proof functions, named
`lemma_*` (for example `lemma_redo_after_undo`, `lemma_insert_bounded`,
`lemma_merged_selections_separated`, `lemma_locale_code_round_trip`).

`app/` holds what Verus does not check: configuration files on disk, the
serde and egui forms of the library's types, and text layout with egui.
