# shh

A terminal browser of SSH hosts: browse and filter groups of servers,
connect with one key, and add, edit, move, rename or delete hosts through
small dialogs. The hosts live in `~/.config/shh/config.toml`.

## Layout

- `src/` — the library, verified with Verus. It decides everything the
  program does: which rows the host tree shows under a filter and fold
  flags, how the selection moves, what each key press stands for, every
  step of the add/edit wizard and the configuration a change produces,
  the ssh arguments and the command preview of a server, the cleaning of
  text read from the config file, the explanation of an ssh failure, the
  key files found in `~/.ssh`, and what the screen shows.
  - `text.rs` — trimming, splitting, joining and decimal numbers.
  - `config.rs` — the configuration model and the resolution of user, key
    and port (server, then group, then defaults).
  - `host.rs` — checking a typed host.
  - `ssh.rs` — ssh arguments, command preview, failure explanations,
    `ssh-keygen` output and key discovery.
  - `app.rs` — the browser's state and every operation on it.
  - `ui.rs` — labels, hints, summaries and dialog placement.
  - `laws.rs` — properties across operations, proved: moving up undoes
    moving down, the filter shows only matches, going back in the wizard
    undoes Enter, editing a host without changes keeps it, deleting removes
    exactly one host, the preview is the command that runs, and more.
- `app/` — the program around the library: the terminal, the config file
  (TOML), running `ssh` and `ssh-keygen`, and drawing with ratatui.
- `tests/` — tests of the library on concrete values.
