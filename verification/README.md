# ramo

A tmux session picker built around directories, git worktrees and coding
agents, with a background daemon that keeps the tree warm. The decisions
are a Verus-verified library; the terminal, the sockets, the processes and
the files are a thin program around it.

## Layout

- `src/` — the verified library. Each module states its behaviour in
  `requires`/`ensures` over spec functions and views:
  - `config`, `keys`, `cli`, `places`: the configuration, key bindings,
    command line and file locations;
  - `help`: the help screen's entries and the surgical edits of the config
    file;
  - `tmux`, `git`, `opencode`, `agents`, `windows`, `report`, `matching`:
    reading what tmux, git, the agent harness and the compositor report,
    and the commands sent back;
  - `builder`, `tree`, `model`: building the picker's tree;
  - `picker*`, `view`: the picker's state machine, its keys, mouse and
    screen geometry;
  - `daemon`: framing, paths and the daemon's lifecycle decisions;
  - `json`: the JSON values read from the agent harness, the compositor,
    the saved reports and the plugin list, parsed and printed by
    `serde_json`;
  - `*_laws`, `tree_order`: properties that span several operations
    (read-back of config writes and deletes, set-back of written settings,
    filter and tree ordering, picker round trips).
- `tests/` — tests run against the compiled library.
- `app/` — the program: terminal drawing, the daemon's threads and
  socket, process and file I/O, and the serde copies of the wire types.
