# kodex

A knowledge graph for code projects: it indexes a project's nodes and
edges, keeps learned knowledge entries (patterns, decisions, conventions,
bugs, ...) linked to that code, and answers queries, traversals and health
questions over both.

## Layout

- `src/` is the library, written in Verus. Every function there carries a
  contract (`requires` / `ensures`) over spec models of its data, and Verus
  proves the body against it. Properties that span several operations are
  stated and proved as public proof functions in `src/laws.rs`.
- Calls into outside crates (fuzzy matching, UUIDs, word characters, the
  clock) go through small trusted wrappers whose contracts say what those
  crates document; everything around them is verified.
- `tests/` runs the library on concrete values.
- `app/` is the command-line program: argument parsing, the SQLite store,
  files on disk, JSON, and the arithmetic on floating-point confidences
  (reinforcement, merge and supersede decay, staleness factors, similarity).
  It hands the library plain values and prints what comes back.
- The library also builds the graph report (`report`, communities listed by
  id), recommended actions (`recommend`), the knowledge graph as Markdown
  (`kgraph`), the whole-number
  relevance signals of an entry for a task (`relevance`), the edges joining
  names shared across a workspace's projects (`workspace`), project merges
  with their shrink guard (`store`), and the server and hook registration in
  an assistant's JSON configuration (`install`).
