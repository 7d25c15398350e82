# sshx

A manager of SSH connections that works on top of OpenSSH: servers are
registered under short names, keys are kept in an inventory, and the tool
builds the `ssh`, `scp`, `ssh-copy-id`, `ssh-keygen` and `ssh-add` command
lines for them.

- `src/` is the verified library (Verus): the server and key inventories
  (`registry`), the argument lists and remote commands (`ssh`), the agent's
  environment (`agent`), key installation and rotation (`keyops`), the
  verdicts of `doctor`, the command-line shortcut and formats (`cli`), the
  listings (`display`), the clock and history (`clock`), the directories
  (`paths`) and the text handling they share (`text`, `args`).
- `app/` is the program: argument parsing, prompts, tables, the YAML, JSON
  and TOML files, and the processes it runs.
- `tests/` runs the library on concrete values.
