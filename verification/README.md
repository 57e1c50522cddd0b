# rch

The core of a reader for comics: books from local folders and from remote
sources, their covers and caches, scans of remote libraries, and the catalog.

`src/` is the library. It is written in Verus: each function states in its
contract what it returns or changes, and the proofs are part of the source.
Nothing in it reads a file, asks a server or runs a statement. Where a decision
follows on such work, the library is given what was found and answers with what
is to be done next:

* `text`, `number`, `order`, `digest`, `json` hold the rules for text, numbers,
  sorting, hashes and JSON that everything else is stated over.
* `tree`, `cache`, `migration` plan what is cleared, evicted, purged, published
  and moved on disk.
* `session` hands out handles; `api::book`, `api::source` and `api::opening`
  open sessions and books by them.
* `remote_scan` decides how a scan begins, goes on and ends, how covers are
  fetched within their budgets, and what becomes of a failure.
* `api::remote_cover` and `api::cache` decide what is recorded and what is
  removed for remote covers and books.
* `catalog_context` and `api::scraper` lay out what names are parsed from and
  account for every file of a run.
* `api::library`, `api::db`, `api::sync`, `api::package`, `api::export` and
  `api::eh_subscription` shape what is shown, stored, packed and exchanged.

Laws that span functions are public proof functions whose names begin with
`law_`. Calls into other crates stand in small functions marked
`external_body`; the comment above each says what is taken on trust.

`tests/` runs the library on concrete values. `app/` is ordinary Rust around the
library: files, the database, threads, and traits for the services that the rest
of the application provides.
