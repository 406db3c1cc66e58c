# terminal_window_manager

The verified core of a terminal window manager: projects and terminals, the
sessions of a helper process per terminal, the diagnostics that shells report
through generated prompt hooks, the filter that turns `ESC ] 9;4` progress
sequences into events, the pseudo-terminal host's argument and control
handling, and the crash dialog and crash-reporting configuration.

- `src/` is the library. Every function carries a contract and is proved by
  Verus; calls into `regex`, `base64`, `sentry` and a few standard-library
  functions go through small trusted wrappers whose contracts are documented
  where they are declared. The library reads no clock and draws no random
  numbers: the functions that stamp a time or give out a new id take it as
  an argument, and their contracts say where it ends up.
- `tests/` runs the library on concrete inputs.
- `app/` is the program around it: the pseudo-terminal host (`--twm-pty-host`),
  the session runtime that spawns helpers and moves their output, the state
  file, logging, the panic hook and Sentry. It reads the clock (`chrono`)
  and makes new ids (`uuid`) for the library. The desktop window itself needs
  the Tauri runtime, which is not part of this build; commands of the front
  end are read as JSON lines on stdin instead.

Modules of the library:

| module | what it holds |
| --- | --- |
| `text` | trimming, ASCII case folding, `String`/`Vec<char>` helpers |
| `osc_progress` | the OSC 9;4 progress filter and its byte-level model |
| `diagnostics` | shell classification, prompt hooks, recent-output buffer, paths |
| `models` | the persisted state, activity per status, loading repairs |
| `session` | the session manager: bookkeeping and helper events |
| `pty_host` | the host's arguments, defaults, control messages, exit codes |
| `crash_dialog` | the crash dialog's texts and choices |
| `crash_reporting` | report levels and the Sentry configuration |
| `windows_keyboard_guard` | which window messages the keyboard guard swallows |
