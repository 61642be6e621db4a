# Notegraf

A graph-oriented notebook: notes keep every revision they ever had, form
sequences (previous/next) and trees (parent/branches), and refer to each
other through `notegraf:/note/<id>` links.

- `src/` is the library, verified with Verus: note identifiers and locators,
  note metadata, plain and Markdown note contents, Notegraf URLs, the search
  query language, the in-memory note store with its laws
  (`notestore/laws.rs`), the statements, row conversions and decisions of the
  PostgreSQL store (`notestore/postgresql.rs`, `notestore/postgresql_steps.rs`),
  the web API's request decisions, and the server settings.
- `tests/` runs the library on concrete cases.
- `app/` is the web server (actix-web): it reads the settings, serves the
  HTTP API and writes notes as JSON. It keeps the notes in memory, or in
  PostgreSQL through sqlx; the PostgreSQL tables (`note`, `revision`,
  `current_revision` and the view `revision_only_current`) are expected to
  exist in the database.
