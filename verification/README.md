# theodb_am

The on-disk formats and maintenance rules of the `theodb_hnsw` and `theodb_ivfflat` PostgreSQL
index access methods, as a Verus-verified library.

- `src/` — the library. Every function states its result in `requires`/`ensures` over byte
  sequences and models; the laws (what a read gives back of a write, where the pending region
  starts, that a fold never touches the live generation, that a tombstone is idempotent and keeps
  the tuple navigable) are public proof functions.
  - `layout`, `bytes`: page geometry and little-endian field access.
  - `codec`: element, raw-vector and neighbor tuples; tombstones.
  - `meta`, `pack`, `graph`: the HNSW meta page and packing a built graph into pages.
  - `store`: what VACUUM and in-place inserts do to element and neighbor tuples.
  - `page`, `ivf`: the blob, pending and structured IVFFlat layouts.
  - `fold`: placing a new generation and ordering its writes.
  - `columns`: typed column values for the vectorized executor (fixed-width stream and per-cell).
  - `walk`, `traverse`: the HNSW scan as a state machine (upper-layer descent, ground search
    with `ef`, result order); the caller reads pages and scores vectors.
  - `persisted`: telling a persisted index blob's algorithm by its magic.
  - `groups`: the order of grouped-aggregate keys.
  - `text`: error texts with their numbers in decimal.
  - `guc`, `options`, `labels`: setting resolution and the label-overlap predicate.
- `tests/` — scenario tests over the public API.
- `app/` — the extension glue (pgrx): settings registration, buffer I/O, the fold driver and
  the graph walk's page reads.
