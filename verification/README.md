# space

A TUI for multi-repo agent work. A space is a working set of repos; agents are started in
one, and past conversations are browsed and resumed from there.

```
~/Desktop/repos/            pool: canonical checkouts
  acme/api/
~/Desktop/proj/             a space (marked by .space.toml)
  api                       symlink into the pool
  api-feat-x                worktree on feat/x, made by `space wt`
```

## Layout

* `src/` is the library, verified with Verus: transcripts, stacks of branches, spaces and
  what may be done to them, the state of the TUI and what it shows, the command line.
  It takes what stands on disk and what git answers as plain values, and says which steps
  to take.
* `app/` is the program: the file system, git and gh, threads, the terminal.
* `tests/` are the library's tests.

## Settings

`~/.config/space/agent.json`, where there is one, names the first agent: its `label` on screen,
its `program`, its folder in the `home` directory, and the `policy` file it reads in a space.
All four are needed:

```json
{"label": "Ada", "program": "ada", "home": ".ada", "policy": "ADA.md"}
```

Without the file these are `Agent`, `agent`, `.agent` and `AGENT.md`. The second agent's names
are fixed.

A build may put pool and spaces elsewhere than in `~/Desktop/repos` and `~/Desktop`:

```sh
SPACE_ROOT=workspaces SPACE_POOL=checkouts cargo build --release
```
