# fileutil

A tool to examine the file system, as a verified library and a thin program.

- `src/` — the library, verified with Verus:
  - `entry`: the per-entry metadata record and how it is built from metadata;
  - `walk`: the walk-provider interface and the in-memory provider;
  - `glob`, `path`, `text`: glob matching, path operations and text helpers;
  - `commands`: the `enum` and `ls` subcommands (argument dispatch, records,
    column definitions);
  - `render`: cells, rows and the lines the table and CSV renderers print;
  - `time`: timestamps, local time-zone offsets and their RFC 3339 text;
  - `schema`: the csvdb column schema and its update and staleness rules.
- `app/` — the command-line program: argument parsing, the platform walker
  (disk traversal and metadata reads), the machine's time zone, the schema
  file on disk, and writing output.
- `tests/` — tests of the library.
