# tuimux

A prefix-free, mouse-first terminal multiplexer. A daemon owns a list of
windows, each running a shell on a PTY; a ratatui client draws them and
routes keys, mouse events and pastes.

The decisions are a library verified with Verus (`src/`):

- `text`, `util` — character and number helpers, byte sizes (`1.5K`).
- `tmux` — reading `tmux -V` versions and the probe's verdict.
- `terminal` — terminal output normalisation, key and mouse encodings,
  OSC 52 clipboard replies, window titles, selections and styled rows.
- `native_mux`, `daemon`, `mux_backend` — the window list, the daemon's
  answer to each request, and the request/response types.
- `ui`, `ui_model` — screen layout and hit testing, and the client as a
  state machine from events to actions.
- `files`, `preview`, `cli`, `doctor`, `clipboard` — the explorer order, the
  layout preview, run modes, doctor checks and the clipboard tool choice.

Every public function states its result in `ensures`; the laws that relate
several functions are public proof functions.

`app/` is the program around the library: argument handling, the terminal
event loop and drawing, the Unix-socket daemon and client, PTYs, and the
clipboard commands. `tests/` runs the library on concrete values.
