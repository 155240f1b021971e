# ukrop

Quick directory jumping and command re-running: a unified, frecency-ranked
picker over visited directories, shell commands and ssh hosts.

- `src/` is the library, verified with Verus: the history and
  `~/.ssh/config` parsers, the replay of a history into commands, their
  directories and the jumps between directories, the ranking formula and
  the type-diversity merge, the two-tier fuzzy filter (over nucleo), the
  picker's list, key handling, actions and dialogs, the theme presets'
  colours, terminal key decoding, the text the screen shows, and the decisions the shell hooks make.
- `app/` is the program around it: argument parsing (clap), the SQLite
  store (rusqlite), the configuration file (serde, toml), the terminal
  (crossterm, ratatui), reading history files, and the floating-point
  parts (score decay, scaling of weights, durations).
- `tests/` exercises the library on concrete values.
