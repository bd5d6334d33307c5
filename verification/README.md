# monitor-switcher

Swaps which display outputs are active on Windows, by name, from a command line or
from hotkeys.

- `src/` is the library, verified with Verus. It holds every decision: what a display
  configuration says and which outputs it lists (`display`), how a profile becomes the
  paths that Windows is sent and what is done about each answer (`display::apply`), the
  config (`config`), the command line (`cmdline`, `app`, `cli`), hotkeys (`hotkey`), the
  tray daemon (`tray`, `icon`, `log`), monitors' own settings (`ddc`, `cli::vcp`), power
  over CEC (`cec`, `cli::cec`), and how failures are worded (`winerr`, `error`).
- `app/` is the program around it: calls into Windows, files, the CEC adapter, and the
  window of the daemon.
- `tests/` runs the library.

Work that alternates with decisions is a state machine: the library says what is to be
done next, the program does it and hands back what came of it. `query_step`,
`apply_step`, `save_step` and `wake_step` are the steps of these machines.

What the library promises as a whole is stated by its public `law_*` proofs, each next
to the functions it is about.
