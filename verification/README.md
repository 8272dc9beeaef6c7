# mouzi

Mouzi keeps folders such as Downloads tidy: it watches them and moves each
new file into a folder chosen by the first matching rule (by extension,
with an optional regular expression on the name), with `{year}`, `{month}`,
`{day}`, `{extension}` and `{filename}` placeholders in destinations, a
history that can be undone, and a notification per batch.

- `src/` is the library, verified with Verus: `rules` (matching, first
  match wins, destinations, what a rule does), `model` (records, the stored
  form of extension lists, the default rules), `watcher` (debounce queue,
  ignore window after an undo, batch notification), `commands` (greeting,
  interface language, downloads folder, undo plan), `text` (string
  operations with exact specifications), `pattern` and `clock` (the
  `regex` and `chrono` calls), and `laws` (properties of the whole).
- `app/` is the desktop application around it: the Tauri shell and tray,
  the SQLite store, the `notify` watcher thread and the file moves.
- `tests/` runs the library on concrete cases.
