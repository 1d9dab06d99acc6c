# ballast-survey

A read-only inventory of reclaimable disk weight: it walks a set of roots,
finds the subtrees that are safe-ish to delete (`target/` dirs,
`node_modules/`, `.venv/`, `__pycache__/`, cargo caches, big `~/.cache`
children), sizes each, ranks Rust `target/` dirs by how safe they are to
reap, and prints them sorted by bytes. It deletes nothing.

A top-level child of `~/.cache` is reported as `CacheChild` when it holds at
least 100 MiB; a smaller one is not reported, and the walk goes into it
like any other directory. An entry's
mtime is that of the most recently modified file in it; directories' own
times do not count. A crate counts as cloud-built when it holds a
`.autobuilder_cloud` marker, when `autobuilder.json` or `.autobuilder.json`
is a JSON object whose `cloud` member is `true`, when a line of
`autobuilder.yaml` reads `cloud: true` (or `True`, `TRUE`, optionally
followed by a comment), or when `AUTOBUILDER_CLOUD` is `1` or `true`.

## Layout

- `src/` is the library, verified with Verus. It holds every rule of the
  survey as plain-value logic with contracts: directory classification and
  the breadth-first walk that never descends into a matched directory
  (`classify`, `walk`), subtree tallies (`size`), fossil classification of
  Rust targets and its inputs (`cloudaware`, `json`), the report's order,
  floor and totals (`emit`), the human table (`table`), command-line values
  (`cli`, `roots`) and instants (`timestamp`).
- `app/` is the `ballast-survey` program: argument handling, reading the
  filesystem, the environment and `adopt --list`, and JSON output through
  serializable copies of the report types.
- `tests/` exercises the library on concrete values.
