# Blur

A modal terminal text editor with Vim-like keys, tabs, undo and redo,
bracketed paste and syntax highlighting. The editing logic is a library
verified with Verus; a thin front end drives the terminal.

## Layout

- `src/text.rs`: lines addressed by byte offsets; char boundaries, searches and
  string edits.
- `src/helpers.rs`: `Tab`, `Visual`, `EditRecord` and the redo/undo of each
  record (`apply_forward`, `apply_inverse`). Beside each undo and redo record a
  tab keeps whether it removed the only line, so that undoing it refills that
  line rather than adding one.
- `src/actions.rs`: edits shared by several modes (Delete, Backspace, undo,
  redo, indentation).
- `src/controls.rs`: cursor movement.
- `src/normal_mode.rs`, `src/modes.rs`, `src/select_modes.rs`: the key handlers
  of each mode, paste, and the prompts.
- `src/editor.rs`: the session (tabs, mode, prompt line) and the decision taken
  on each key or paste.
- `src/guards.rs`: run-time checks that a key stays within the bounds its
  handler needs.
- `src/document.rs`: splitting file contents into lines and joining them back.
- `src/render.rs`: status bar labels, scrolling and cursor placement.
- `src/highlight.rs`: highlighting through `syntect`, themed by `opaline`.
- `app/main.rs`: the event loop, file I/O and drawing with `ratatui`.

Each handler's contract gives its result as a spec function of the tab before
the key; proof functions named `law_*` state what holds across calls (undo
after redo, a typed run becoming one undo record, tab cycling, and so on).
