# colorschemed

A small daemon that listens for the desktop's light/dark colour-scheme
changes (the `SettingChanged` signal of the XDG desktop portal) and runs the
commands of its TOML configuration, with placeholders such as `{{-mode-}}`
replaced by their light or dark text.

- `src/` is the library, verified with Verus: theme detection from a signal
  (`theme.rs`, `dbus.rs`), the configuration and placeholder expansion
  (`config.rs`, `text.rs`), and the decisions of the command loop
  (`command.rs`, `cli.rs`).
- `app/` is the program around it: command line parsing, reading and parsing
  the configuration file, the D-Bus connection, asking the user, and spawning
  the commands.
- `tests/` exercises the library on concrete values.
