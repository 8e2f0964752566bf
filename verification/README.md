# folio_core

The document model and editing logic of Folio, a distraction-free word
processor, written in Verus: every function in `src/` carries a contract
that Verus proves.

- `src/document/` — blocks, inline runs, page settings and the edits
  (insert, delete, split, merge, restyle), each specified over a model of
  the block list; `laws.rs` proves how the edits fit together.
- `src/editor/` — cursor, selection and key handling as functions from an
  editing state to the next one.
- `src/search.rs` — literal and regex search and replace, through the
  `regex` crate.
- `src/stats.rs`, `src/export/` — word and sentence counts, and the plain
  text, Markdown and HTML exports.
- `src/ui/` — what the toolbar, outline, statistics panel, find & replace
  dialog and font manager compute.
- `src/crdt.rs` — the undo history, kept in a `loro` document.
- `app/` — the GTK program around the library: windows, drawing, files,
  JSON and PDF. Verus does not see it.
- `tests/` — tests of the library.
