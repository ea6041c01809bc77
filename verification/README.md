# gtmov

A personal movie library server: it scans folders for files named
`Title (Year).ext`, looks each movie up at TMDB, stores it in SQLite and serves
a small web front end.

- `src/` is the verified library (Verus): the file-name convention
  (`filename`), genre resolution (`genres`), the choice among search results
  and the assembled movie record (`movie`), the retry schedule (`retry`), the
  progress events of a scan and the volume label of a scanned path (`scan`),
  the replies of the HTTP handlers (`reply`), the server settings (`config`)
  and character-level string helpers (`text`).
- `app/` is the server around it: HTTP handlers, database access, TMDB and
  image downloads, the directory walk and `main`.
- `tests/` runs the library on concrete values.
