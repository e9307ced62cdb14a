# agent-sessions

Derived facts about agent sessions and worktrees, and what they allow: which
process is still the one a record claims, which pane it sits in, what a
worktree or a branch still holds, and whether removing either would lose
anything.

Everything is read-only evidence. A fact that cannot be proven is `Unknown`
with its reason, and an unproven local safety fact blocks a cleanup rather than
being guessed at.

## Layout

- `src/` is the library, written in Verus. Every function carries a contract,
  and the properties that span functions are proved as `law_*` proof functions.
- `app/` is the program around it: `main`, subprocesses, files, clocks.
- `tests/` runs the library on scripted replies and concrete values.

The library runs nothing itself. Where it needs Git, tmux, a forge CLI or the
file system, its functions take a function for it, and their contracts say of
the result what any reply of that function makes of it. What may be handed to
such a function is part of the contract too: `git::accepts_reads`,
`tmux::accepts_list_panes` and `forge::accepts_queries` are all that is asked,
so an argv that could write is never handed out.

| Module | What it holds |
| --- | --- |
| `evidence` | a proven value, or the reason there is none |
| `git` | the read-only allowlist, the reads, path resolution |
| `vector` | anchors, upstream and base evidence, the state vector |
| `verdict` | the cleanup verdicts and their reasons |
| `forge` | pull and merge requests through `gh` and `glab`, cached |
| `process` | `ps` rows, ancestry, liveness, published start times |
| `tmux` | pane records, inventory, handles, worktree bindings |
| `runtime` | claims resolved to panes, pane ownership |
| `config` | the optional TOML file, overrides, durations |
| `cli` | what an invocation asks for |
| `text`, `path`, `time`, `calendar`, `json`, `command` | what the others stand on |

## What is taken on trust

`String::push` and the `Debug` form of a string from the standard library;
`serde_json` for what a JSON value is (`json`); `toml` for the entries of a
table (`config`). Each stands behind one function whose doc comment says what
is claimed of it.
