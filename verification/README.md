# atelier

Versioned workspaces for humans and AI agents, with their rules verified in
[Verus](https://github.com/verus-lang/verus).

A workspace is a directory whose whole history is kept. Actors work in
isolated sessions and land through a gate; every act is journaled; documents
diff at the highest fidelity their format allows; sources (folders, git
repositories, buckets) mount with their own histories.

## Layout

- `src/` is the library: what is decided. Its functions have contracts that
  Verus proves, and the promises that span functions are public proof
  functions beside them. Two things are not proved. What the library takes
  from other crates and from std (line comparison from `similar`, digests from
  `sha2`, timestamps from `time`, ignore files and commit ids from `jj-lib`,
  a few string functions) it takes through trusted declarations, whose
  contracts are believed; each has a comment that says what is trusted. And
  `WatchStop::new`, `stop` and `stopped` state nothing of the flag they share
  with other threads.
- `tests/` runs the library on concrete values, with the outside crates linked.
- `app/` is the `atelier` program: the command line, jj, git, SQLite, and the
  filesystem around the library.

## Reading the contracts

State is modelled by views: `LedgerView` for what actors share and what is
journaled, `CommitView` for a commit, `DeltaView` for one difference. A
function that changes the ledger states the ledger after it as a function of
the ledger before it. Where outside work alternates with decisions (folding
moved git history, copying a tree, watching, applying a landing), a machine
with a view of its own says what is done next, and takes in what came back.
