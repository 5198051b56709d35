# gitat

A terminal interface for git, built around a verified library.

- `src/` is the library, verified with Verus: the readers of git's output
  (branches, status, log, commit files, unified diffs, conflict markers),
  the commit graph, the operations that run git through a `CommandRunner`,
  and the logic of the interface: the side-by-side diff (row pairing,
  word-level highlighting, column placement), the conflict editor, the file
  lists and what each key does in each mode.
- `tests/` exercises the library on concrete inputs.
- `app/` is the program: it starts git processes, reads the terminal, and
  draws with `ratatui`, asking the library what to show and what a key does.
