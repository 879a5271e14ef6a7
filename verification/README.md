# voxcaster

An MCP server that gives an agent persistent, interactive pseudo-terminal
sessions: spawn a process, write to its stdin, read its scrollback, wait for
it to exit, list and kill sessions.

- `src/` is the verified library (Verus):
  - `pty/buffer.rs` — the bounded, line-oriented scrollback (`RingBuffer`),
    with its model (`BufferView`) and laws: bounded memory, oldest lines
    dropped first, chunk boundaries irrelevant, nothing lost by line cutting.
  - `pty/lifecycle.rs` — the session lifecycle (`running → killing → killed`,
    `running → exited`), the timeout rule and session snapshots.
  - `pty/registry.rs` — the session table, viewed as a map from id to session.
  - `pty/id.rs` — session identifiers (`IdSource`: time and a count).
  - `policy.rs`, `glob.rs` — the command policy: glob allow/deny rules over
    the command line above a fixed floor of catastrophic commands.
  - `server.rs`, `channel.rs` — the text the tools return: the read filter,
    the concise rendering of JSON results, the exit notice.
  - `conpty_bootstrap.rs` — whether a staged ConPTY file must be rewritten.
  - `types.rs`, `text.rs` — shared data types and text helpers.
- `app/` is the program around it: stdio MCP transport (`rmcp`), PTY
  processes (`portable-pty`), threads and timers (`tokio`), the policy file
  (TOML) and the wire types. The exit push of a `notify_on_exit` session goes
  to the channel named by `VOXCASTER_CHANNEL_METHOD`, announced under the
  experimental capability `VOXCASTER_CHANNEL_CAPABILITY`.
- `tests/` exercises the library.
