# Markerup

Markerup is a filesystem-first Markdown notes editor: folders are folders,
notes are ordinary `.md` files, and the editor keeps no database of its own.
This crate is its core, written in Verus: every function in `src/` carries a
contract that Verus proves.

## Layout

- `src/` — the verified library.
  - `workspace.rs`, `smb.rs`, `links.rs`: entry ids, names, backups and
    assets; SMB paths; relative links between notes.
  - `listing.rs`, `ios.rs`: how a directory listing becomes rows of the
    notes tree (stable sort by lower-cased name, hidden entries left out),
    and the coordinated listings of picked iOS folders.
  - `markdown.rs`, `preview.rs`, `mermaid.rs`: task toggling, find,
    heading anchors, the preview model built from the parsed document, and
    Mermaid sources prepared for rendering.
  - `backend_state.rs`: the canonical workspace state — the open workspace
    and its favorite, the open note and its save baseline, conflicts, the
    launch-time restore — as a state machine whose every decision is proved.
  - `app_state.rs`: the editor window's state — the collapsible tree, the
    dirty flag, history, find, delete confirmation, and the debounced
    preview, search and scan requests.
  - `search_index.rs`, `assets.rs`: the search index with its bounded
    content cache, and the least-recently-used cache of image data URLs.
  - `navigation.rs`, `preview_controller.rs`, `save_coordinator.rs`,
    `backups.rs`, `persistence.rs`, `backend.rs`, `text.rs`: history,
    debouncing, saves, backup retention, the session file, and helpers.
- `tests/` — tests of the library on concrete values.
- `app/` — a command-line front end that performs the file, SMB and
  session I/O around the library.

Calls into `markdown`, `merman`, `serde_json`, `base64` and
`percent-encoding` stand behind small trusted wrappers whose contracts say
what those crates document.
