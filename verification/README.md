# duckdb_slt

A sqllogictest runner for DuckDB, whose logic is verified with Verus.

- `src/` is the verified library: extension specs and their SQL, the
  `require` preprocessor, how DuckDB values and column types become the text
  that test files expect, how paths are shown, glob expansion order, failure
  reports, and the run's tally and exit codes.
- `app/` is the command-line program around it: argument parsing, the file
  system, the DuckDB connection and the sqllogictest runner.
- `tests/` holds the library's tests.
