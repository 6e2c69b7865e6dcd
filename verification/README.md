# lser

A small full-text search engine. `lser index [dir] [db]` reads the `.txt` and
`.pdf` files of a directory, splits their text into upper-cased alphanumeric
terms and stores per-document term counts and frequencies in SQLite;
`lser serve [-p PORT] [--host]` answers searches over that index by tf-idf.

- `src/` is the verified library: the lexer (`commons`), term counting and file
  selection (`index`), the SQL statements (`database`), the request routing,
  static-file mapping, argument parsing and search response (`serve`), and
  subcommand selection (`cli`).
- `app/` is the program around it: files, PDF text extraction, SQLite, HTTP,
  and the floating-point frequencies and scores.
- `tests/` runs the library on concrete inputs.
