# atomic_repository

The rules of a repository of changes, as a Verus library: every function under
`src/` is verified against its contract.

The library decides and performs nothing. What lies on disk, in the database or
in Git comes in as plain values; plans, steps and errors go out. `app/` is the
ordinary Rust around it that reads, writes and locks.

## Layout

| Modules | What they decide |
| --- | --- |
| `deferred_tree`, `tree_collection`, `tree_alignment`, `planner_laws`, `journal_laws` | where journaled inodes belong under a set of visible changes |
| `projection`, `content`, `conflict_markers` | which changes a view projects, and what its files hold |
| `status`, `status_laws` | how a working copy differs from its view |
| `materialize`, `switch`, `switch_laws`, `view_alignment` | how a working copy is brought to a view |
| `effects`, `effect_paths`, `operation`, `recovery`, `replay`, `disk` | how operations on disk are leased, backed up, executed and undone |
| `native_roots`, `native_tables`, `native_index`, `native_order`, `native_build`, `row_text`, `native_laws`, `health_laws`, `repair_laws` | how derived indexes are rebuilt and compared |
| `git_index`, `worktree`, `git_state`, `workspace_txn` | what Git holds, and when a shared workspace may be entered |
| `snapshot`, `snapshot_laws`, `selective_repair`, `provenance_relink` | private snapshots, repair plans and relinks |
| `types`, `pristine`, `change_order`, `repository`, `error`, `text`, `paths`, `bytes`, `collections`, `ordering` | what the others are built from |

Laws that relate several functions stand beside them, or in a module of their
own, as public proof functions.
Three calls leave the library, each behind a function whose contract is taken on
trust: UTF-8 validation (`conflict_markers`), the error code of a contended lock
(`materialize`) and the hash of a Git tree object (`git_index`).
