# ctddump

Conversion and clean-up of oceanographic CTD profile data (NetCDF to Parquet
or YAML), with the decision logic written in Verus and proved against its
contracts.

## Layout

- `src/` — the verified library.
  - `cli`, `lib` — the command model and the planning of a command into a job
    (built-in default < `--config` file < individual flags).
  - `batch` — file selection by glob, output paths, clash detection.
  - `convert`, `netcdf`, `header` — the array logic that turns NetCDF
    variables (held as plain values) into observation-level columns, and the
    header metadata.
  - `profiles`, `dupkey`, `dedup`, `markdup`, `dropna`, `dropqc`, `compare` —
    profile tallies and the profile-level filters, duplicate keys, duplicate
    marking and removal, and file comparison.
  - `concat` — partitioning, renumbering and header merging for `concat`.
  - `report` — the report tables (TSV, aligned text, JSON), the header
    coverage report, and the summary page (Markdown or HTML) assembled from
    the pipeline's report files, with the region filter's bounding box and
    the coverage found by the comparison reports.
- `app/` — the command-line program: argument parsing, file and NetCDF/Parquet
  I/O, and the floating-point work (unit conversions, rounding, percentages).
- `tests/` — tests of the library on concrete values.

Calls into `chrono`, `glob` and `std::path` that the library's logic makes
stand behind small trusted wrappers whose contracts are stated next to them.
