# explorer_core

The workspace core of an offline-first file explorer, verified with Verus.

The library (`src/`) holds the explorer's logic and its proofs:

- `paths`: paths as an anchor and name components; the set of expanded
  directories (`PathSet`), each path held once.
- `app_core`: the workspace state (root, expanded directories, selection),
  the refresh record, and every command. A command that touches the disk is
  split in two: a request that decides what to do from the current state,
  and a commit that records the outcome of the filesystem call. A failed
  call leaves the state as it was.
- `tree`: the explorer tree, depth first over the listings of the expanded
  directories, and the label of each row.
- `names`: the Windows naming rules for new and renamed entries; the
  rules judge the name without its surrounding whitespace, and the entry
  gets the name as typed.
- `fs_adapter`: the guard rules of filesystem access (inside the root, no
  trashing of the root), path resolution and the listing order.
- `file_ops`: conflict-free names for copied and moved entries.
- `watcher`: coalescing of filesystem notifications.
- `persistence`, `error`, `text`: the saved session (root, expanded
  directories, selection), the errors and their messages, decimal text.

The program (`app/`) performs the disk, database and watcher work with
`std::fs`, `dunce`, `trash`, `walkdir`, `rusqlite`, `directories` and
`notify`, and draws the window with `gpui` and `gpui-component`.
