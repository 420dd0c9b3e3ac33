# contour_sync

The logic of GitFlic Contour Sync, a desktop tool that compares a branch in
two GitFlic instances ("contours") and updates it through a GitFlic runner
pipeline, written as a Verus library with its contracts proved.

## Layout

- `src/` — the verified library:
  - `text.rs`, `keyed.rs`, `order.rs`: text operations, an insertion-ordered
    map with unique keys, and a stable sort by text keys.
  - `messages.rs`: localized messages (HTTP errors, request failures,
    response previews).
  - `contour.rs`: a contour's base URL, its token header, its list URLs.
  - `json.rs`, `gitflic.rs`: JSON values, and the project and branch lists.
  - `sync.rs`: checks of a sync request, the pipeline's variables and URLs,
    and the decisions of the polling loop.
  - `diff.rs`, `runner.rs`, `artifact.rs`: the runner's report (`result.env`,
    patch, name-status, numstat) read from its zip artifact.
  - `outside.rs`: the calls into `url`, `reqwest`'s HTTP types and `zip`,
    with the contracts that are trusted.
  - `laws.rs`: properties of the library as a whole.
- `tests/` — tests of the library.
- `app/` — the Tauri commands: HTTP requests, waiting, JSON (de)serialization.
