# tear

A terminal multiplexer: sessions of windows of panes, each pane a terminal with a
program in it, kept by a daemon that outlives its clients.

- `src/` is the library, verified with Verus: the terminal screen and the blocks
  of a shell session, addresses and identities, recordings, the registry of
  sessions, the multiplexer, and the daemon's requests and connections. Nothing in
  it does I/O. What touches a terminal, a socket or a file is returned as a plan.
- `tests/` holds its tests.
- `app/` carries the plans out: it owns the terminals, listens on sockets, and
  writes the files.

How a window is divided among its panes (`layout`, `arrange`) and what the daemon
remembers of its sessions (`praca`) are written anew here, and proved, with no crate
for layouts or for session memory behind them.

Calls into outside crates (`vte`, `unicode-width`, `blake3`, `serde_json`,
`ishou-tokens`) stand behind small functions whose contracts say what is believed
of them.
