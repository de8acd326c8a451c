# box

`box` manages sandboxed git workspaces: sources are registered as bare
clones under `~/.box/repos/`, and named workspaces under
`~/.box/workspaces/<name>/` are built from them with `git worktree` or
`git clone --local`, alone or grouped by presets.

## Layout

- `src/` is the library, verified with Verus. Public functions state their
  result in their contracts, except where it rests on what the disk holds
  (`is_repo`, `session_exists`): those hand the disk's answers to verified
  functions that do. The laws of the library are public proof functions
  (`lemma_*`).
  - `cli`: the command-line grammar (subcommands, aliases, options,
    conflicts, `BOX_VERBOSE` and `BOX_STRATEGY`).
  - `session`, `preset`, `repo`, `fields`, `paths`, `config`: names and
    their rules, the metadata files and their encodings, the box root.
  - `commands`, `edit`, `workspace`, `removal`, `git`, `parallel`: the
    decisions of the commands, and the plans of the work they hand to
    `git` and the file system (the fetch that steps around checked-out
    branches is a state machine driven by its caller).
  - `protocol`, `terminal`, `prefix`, `sidebar`, `client`, `server`: the
    terminal multiplexer's wire format, input handling, scrollback,
    sidebar and sizing.
  - `tui`, `screens`, `create`: the interactive screens (text field,
    checklists, name history, the screen that creates a session).
  - `text`, `strset`: strings and ordered sets of strings.
- `tests/` runs the library on concrete values.
- `app/` is the `box` program: it reads the environment, touches the
  disk, runs `git` and prints, asking the library what to do.
