# weld

A fake REST API over a JSON document: the tables are the members of the
top-level object, records are found by their integer `id`, and paths may go
down into nested objects and arrays (`/posts/1/tags/2`). Reads take a query
API (`_filter`, `_q`, `_fields`, `_offset`/`_limit`, `_sort`).

Layout:

- `src/` — the verified library (Verus).
  - `json.rs` — the document type `Json` and its mathematical view `JsonV`.
  - `text.rs` — splitting, searching and decimal parsing of text.
  - `database/` — the database: following paths, read, insert, update,
    delete, their error messages, and `laws.rs`, the properties that the
    operations have together (a read after an insert gives the record back, a
    delete undoes an insert, every change keeps the names of each object in
    order and unique, and so on). `query_api/` applies the query API to
    a result.
  - `service/` — parsing of paths and query strings, and `RestService`, which
    answers a request from its method, path, query and body.
  - `configuration.rs` — the configuration and its defaults.
- `tests/` — tests of the library.
- `app/` — the program: configuration and database files, logging, and the
  HTTP server, which hands each request to `RestService`.

The library holds integer numbers only; the program refuses a database file
with other numbers.
