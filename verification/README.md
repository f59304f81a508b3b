# dar

A terminal disk usage explorer: it walks a directory tree, keeps the sizes in
a tree of nodes, and shows them as a sorted listing and a squarified treemap,
driven from the keyboard.

The library under `src/` is verified with Verus. Its contracts state what the
functions return or change, with these limits: what an outside call computes
(glob matching, layout splits, path parsing, Unicode case mapping) is stated
through a name for that call's result, not spelled out; the scanner's cancel
flag is shared with another thread through an atomic, so `cancel` and
`is_cancelled` promise nothing about its value; and the tree rebuilt when a
scan completes is described (every entry has a node, hanging under the node of
its path's parent; an entry whose path no other entry shares or lies below
keeps its kind; childless nodes hold the totals of their files) only when the
entries' paths are short enough for the node count to fit in a `usize`; the
metadata the rebuilt nodes keep in extended mode is stated per inserted entry,
not for the finished tree.

- `tree`, `scan`, `walk`, `metadata`, `glob`, `paths`: the file tree and its
  sizes, and what a filesystem walk reports (exclusions, mounts, hard links).
- `state`, `events`, `input`, `event_loop`: the application state and the
  decisions taken on keys and scan events; outside work (deleting, opening,
  exporting, measuring) is handed back to the caller as an effect.
- `view`, `info`, `treemap`, `layout`, `ui_cache`, `theme`, `display`: what the
  panels show, the treemap geometry and the colours.
- `cli`, `command`, `config`, `launch`, `report`, `snapshot`: command-line
  and configuration settings, headless runs, and snapshots of a scan.
- `order`, `sums`, `text`: sorting, sums and text helpers with their lemmas.

`app/` holds the program around the library: argument parsing with `clap`,
configuration files, the terminal, drawing with `ratatui`, and the scanner
thread built on `walkdir`.
