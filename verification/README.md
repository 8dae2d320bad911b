# roe

The editing model of a dual-pane terminal editor for structured data:
raw text (JSON, YAML, TOML or XML) on one side, a navigable, editable tree
of the same document on the other.  The library is written in Verus; its
functions carry contracts that Verus proves.

Layout:

- `src/` — the verified library:
  - `text`, `value`, `tree` — characters, the document model with its
    path-addressed edits, and the flattened, collapsible, searchable rows;
  - `format`, `codec`, `sync` — the four formats (reading and writing go
    through `serde_json`, `serde_yaml`, `toml` and `roxmltree`), path-to-line
    lookup, and the text/tree synchronisation;
  - `state`, `events`, `session` — the editor state, undo/redo history, key
    and mouse handling, and loading/saving decisions;
  - `render` — what the screen shows, as styled text segments.
- `tests/` — tests of the library.
- `app/` — the terminal program (crossterm, ratatui, tui-textarea, arboard):
  file and directory access, the clipboard, drawing and the event loop.

Usage of the program: `roe [path/to/file.json|yaml|toml|xml]`.
