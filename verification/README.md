# portpeek

Is a service listening on these TCP ports? `portpeek` answers `open`, `closed`
or `filtered` for each port, scanning this machine unless remote hosts are
allowed with `--allow-remote`.

Layout:

- `src/` is the library, verified with Verus: the port-spec and duration
  readers (`parse`), the host gate (`gate`), the service table (`services`),
  probe statuses and the ordering of results (`scan`), the decisions of
  `--wait` (`wait`), the report text (`report`), spans of time (`span`) and
  character helpers (`text`).
- `app/` is the command: argument handling, the network probes (tokio), the
  clock, and printing.
- `tests/` runs the library on concrete values.
