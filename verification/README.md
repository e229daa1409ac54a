# difft_dir_viewer

The logic of a directory diff viewer built on `difft --display json`,
verified with Verus.

- `src/text.rs` — character-level helpers: Unicode trimming, ASCII case
  folding, logical-line splitting, line-ending removal, decimal rendering,
  joining.
- `src/model.rs` — changed-file records, display rows, extension filtering,
  status tags, warning and info texts.
- `src/convert.rs` — the current JSON entry shape (line-index pairs and
  change chunks) and its conversion into rows whose text comes from the two
  copies of a file.
- `src/results.rs` — framing `difft`'s output as JSON text, finishing each
  entry, and gathering the changed-file list with a note on skipped entries.
- `src/cli.rs` — command-line parsing, usage texts, gutter numbers, and what
  the panes show for one file.
- `src/laws.rs` — properties that span these functions.
- `app/` — a console front end: runs `difft`, parses its JSON with
  `serde_json`, reads the compared files, and prints the result.
