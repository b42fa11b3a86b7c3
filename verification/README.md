# plexus

A minimal terminal multiplexer: panes with live shells, horizontal and
vertical splits, keyboard navigation between panes, a small VT100 screen per
pane and a status line. Prefix key: `Ctrl+a`, then `|` or `-` to split, the
arrows to move the focus, `c` to close the focused pane, `q` to quit.

## Layout

- `src/` is the library, verified with Verus:
  - `vt.rs`: the VT100 screen and its escape-sequence parser, with a
    mathematical model (`ScreenModel`) that every operation is proved against;
  - `app.rs`: panes, the grid layout, splitting, closing and focus movement;
  - `keys.rs`: what a key press does and which bytes it sends to a shell;
  - `render.rs`: the drawing commands of a frame;
  - `llm.rs`: the requests sent to a local Ollama server.
- `app/` is the program around it: the terminal (crossterm), the
  pseudo-terminals and shells (nix, libc), the event loop, and the HTTP calls
  (reqwest, serde).
- `tests/` runs the library on concrete inputs.
