# BenSSH

A terminal VPS manager: a node list, SSH sessions in Windows Terminal tabs,
an SFTP file browser, and an "AI SSH" pane that shows a remote shell and asks
an OpenAI-compatible model to flag problems in its output.

## Layout

- `src/` — the library, verified with Verus:
  - `text.rs`: character-level string operations (trim, split, lines, join)
    with specifications that match `str`'s behaviour;
  - `terminal.rs`: cleaning remote output into a plain log, scroll-back
    windows, cell widths and the cursor overlay, and the `TerminalBuffer`
    that drives the `vt100` screen emulator;
  - `advice.rs`: when new output is sent for a diagnosis (fingerprints,
    deduplication, cool-down) and how much of the answer the panel shows;
  - `ai.rs`: the model settings from the environment and `.env`, the prompt,
    and reading the model's three-line answer;
  - `keys.rs`, `session.rs`, `ui.rs`: what each key does in each pane, the
    bytes sent to the remote shell, selection movement and labels;
  - `config.rs`, `shell.rs`, `remote.rs`, `manager.rs`: nodes, the `ssh` and
    `wt` command lines, SFTP login choice and directory listings, and the
    add/edit/delete/key-setup dialogs as state machines.
- `tests/` — unit tests of the library.
- `app/` — the program around it: the ratatui/crossterm interface, the
  pseudo-terminal session, SFTP transfers, HTTP requests to the model, console
  dialogs and the configuration file.
