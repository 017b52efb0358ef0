# relaycache

The decision core of an always-revalidating HTTP proxy with a content-addressed
disk cache, written and proved in Verus.

The origin is asked about every request. A body comes from the cache only where
the origin has answered that very request with a `304`; a body is stored only
where the origin has sent it in full, and where its `Vary` allows sharing it.

## Layout

- `src/` is the verified library.
  - `proxy`: what a request looks up, asks the origin, stores and answers
  - `headers`, `keys`, `validators`, `range`: forwarding and `Via`, cache keys,
    conditional requests, byte ranges
  - `store`, `tables`, `header_json`, `blobs`, `digest`: cache entries, the
    database writer and eviction, what the tables of the database hold, headers
    as JSON, where bodies lie, content addresses
  - `config`, `size`, `spans`, `paths`: configuration
  - `date`, `numbers`, `text`: dates, decimal numbers, text
  - `fields`, `names`, `selection`: the header map of `axum::http`, and which
    fields go from one message to another
  - `laws`, `key_laws`, `date_laws`: what holds of the proxy as a whole, of
    cache keys and of dates
- `app/` is the program around it: listening, the HTTP client, the in-memory
  index, SQLite and the file system.
- `tests/` runs the library.

What the proofs take from outside crates is stated at the functions marked
`external_body`, each with the outside function it calls.
