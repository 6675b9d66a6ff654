# skyline

A Wayland status bar (niri and Hyprland) whose core is verified with Verus.

- `src/` — the verified library: compositor snapshots and the per-monitor
  queries over them; configuration (defaults, module kinds, click commands,
  migration of legacy keys); the parsers behind the network, audio, tray,
  custom-command and icon services; the bar's popup and monitor-pinning
  state (`bar::BarState`); debouncing; start-up decisions. Every function
  carries a `requires` / `ensures` contract; laws relating several
  functions are public `lemma_*` proof functions.
- `app/` — the program around it: the iced / layer-shell UI, service
  threads that run commands and read sysfs, procfs, D-Bus, PulseAudio and
  the compositor IPC, and the serde form of the config file.
- `tests/` — tests of the library on concrete values.
