# snaps

Incremental snapshots of a file system tree: each snapshot is a directory named by its
Unix timestamp under `/var/snaps/snapshots/<host>/`; files unchanged since the snapshot
that `latest` points at are hard-linked to it, the others are copied.

- `src/` is the library, verified with Verus: command-line parsing (`cli`), the metadata
  file (`meta`), snapshot names and tags (`name`, `tags`), paths and the ordering of the
  snapshot directories (`location`), the directories left out of a snapshot (`filter`),
  sizes and their display (`size`), and the decisions of each command (`commands`).
  Each public function states its result in its `ensures`; the `lemma_*` proof functions
  state properties that span several calls, such as reading back a written metadata file.
- `app/` is the program around it: the file system, the terminal, threads.
- `tests/` runs the library on concrete values.
