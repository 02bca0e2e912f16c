# tmux-mcp

An MCP server for tmux: it lists panes, runs commands in them, reads their output
and asks a policy before anything runs. The library holds the logic and is verified
with Verus; the program around it does the input and output.

## Layout

- `src/text.rs`, `src/shell.rs`, `src/pattern.rs`: text, shell syntax and regular
  expressions, with what is taken from outside crates.
- `src/stream.rs`: a bounded byte stream with offsets that stay valid.
- `src/lint.rs`: lints on commands.
- `src/parse/`, `src/tmux/`: escapes, layouts, the control-mode protocol.
- `src/pane/`: OSC sequences, the shell-integration state machine, the state of a
  pane, its screen, and the registry of panes.
- `src/policy/`: arguments, expressions in three-valued logic, rules, wrappers,
  configurations and approvals.
- `src/daemon/`: what the daemon answers and in what order it checks.
- `src/proc.rs`, `src/client.rs`, `src/hook.rs`, `src/mcp.rs`: processes, the
  daemon's files, the policy hook and the text of tool results.
- `src/fuzz.rs`: inputs for trying out the argument parser.
- `app/`: the program.
- `tests/`: tests of the library.

## Settings

Policy files are named `tmux-mcp.toml`. They are read from a settings directory in
the home directory and in the project; `TMUX_MCP_SETTINGS_DIR` names that directory.
