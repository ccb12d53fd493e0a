# benclaude

A live outcome-analytics side pane for a coding agent. It runs in a narrow
terminal split beside a session, tails the transcript read-only, and annotates
what the agent is doing with 30-day history from past sessions of the same
project.

- `src/` is the library: transcripts, the live session, the history, the join
  with git, and the panels, verified with Verus.
- `app/` is the program around it: files, git, the clock, and the terminal.
- `tests/` runs the library.

The program reads two settings from its environment:

- `BENCLAUDE_AGENT_DIR`: the directory below `HOME` that holds the transcripts,
  under `projects/<sanitized-cwd>/<session-id>.jsonl`
- `BENCLAUDE_COAUTHOR`: the name with which the value of the `Co-Authored-By`
  trailer of its commits begins

## Use

```sh
benclaude watch
benclaude watch --project ~/code/my-app
benclaude doctor     # sanity check without the TUI
benclaude report     # AI commits, line survival 7d+, tokens per surviving line
benclaude heatmap    # per-file agent friction: edits, sessions, added, alive
benclaude sessions   # per-session turns, tokens, babysit time, linked commits
```

Keys in `watch`: `q` quit, `r` report, `h` heatmap, `s` sessions. Inside a view:
`b` or `q` back, `r` refresh.
