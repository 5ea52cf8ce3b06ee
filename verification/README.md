# termnav

Termnav routes terminal gestures. A key press or a click is carried from the
innermost tmux pane outwards: through enclosing tmux servers, over SSH relays,
and to the terminal application. The decisions on that way stand in a library
that is verified with Verus; a thin program around it talks to the host.

## Layout

- `src/` is the verified library.
  - `navigation` owns the traversal of scopes (`walk`), the calls it makes
    (`journal`), what tmux is asked (`system`), what lies outside tmux (`outer`)
    and the devserver exchange (`mcp`).
  - `relay` owns the wire protocol, its two ends, and the store of directives
    that wait for a terminal's reply.
  - `focus` owns focus leases and the pane styles that go with them.
  - `click` recognises what a click points at and says where it goes.
  - `nvim` owns editor targets, their discovery, and the routes by which they
    are opened.
  - `ssh`, `vscode`, `links`, `assets` and `runtime` hold the rules of those
    subjects; `commands` and `cli` read arguments.
  - `text`, `bytes`, `paths`, `shell`, `terminal`, `json`, `http`, `digest`,
    `patterns` and `process` are shared vocabulary.
- `app/` is the program: processes, files, sockets, signals and clocks.
- `tests/` runs the library on concrete values.

Contracts are stated over sequences of characters and bytes. What a value means
is said by a spec function beside the code that computes it; what holds of all
values, across functions, is said by public proof functions.

The library calls `regex`, `serde_json` and `sha2`. Each call stands in a small
function whose contract is believed rather than proved; its comment names the
outside function and says what is claimed of it.
