# potty

The verified core of potty, a terminal with splits, tabs, remote sessions and an attention feed.

`src/` is the library. Everything in it is verified with Verus:

- `proto`: length-prefixed frames and the messages between a client and a session daemon.
- `session`: the daemon's state: panes that outlive their clients, focus that follows input, the
  replay of screens, layouts and notes.
- `client`, `window`, `layout`, `workspace`: panes and tabs, the connections that feed them, and
  what a click or a message changes.
- `snapshot`: a terminal's screen as the escape sequences that recreate it.
- `terminal`: a model of the terminal that reads such a stream.
- `osc133`: exit codes from a shell's prompt marks, whatever the cut of the stream.
- `feed`, `notify`, `helper`, `hooks`, `codex`: the attention feed, its notes, and the hooks that
  raise them.
- `keys`, `mouse`, `blink`, `grid`, `damage`, `chrome`, `dialogs`, `color`: input, drawing decisions
  and the chrome.
- `remote`: trust in host keys, the ladder of authentication methods, and plain shells.
- `config`, `profiles`, `paths`, `term_env`: configuration and places.
- `bits`, `seqs`, `text`, `json`, `toml_doc`: what the others build on, and the contracts of the two
  outside parsers.

Laws that relate several functions are public proof functions beside what they speak of, or in
`client_laws`, `snapshot_laws`, `terminal_laws` and `terminal_reading`.

`tests/` runs the library on concrete values. `app/` is the program around it: the window, the
daemon and the helper, in ordinary Rust.
