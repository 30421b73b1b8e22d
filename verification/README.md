# zyringe

A Linux injector and mod-loader manager for Unity/Mono games, with its decision-making
core written in Verus and proved against its contracts.

- `src/` — the verified library:
  - `elf`, `metadata`, `bytes` — reading ELF dynamic symbols and .NET metadata (entry
    points) out of raw images;
  - `maps`, `procfs`, `scanner` — what `/proc` says of a process: its runtime (Mono,
    Proton Mono, IL2CPP), environment, command line, game directory; how a scan lists
    processes and marks duplicates;
  - `payload`, `engine`, `cli` — the privileged injector: its command line, the request
    buffer handed to the in-target helper, register set-up for remote calls, thread choice,
    and the verdicts on each step;
  - `injector`, `diag` — starting injections and launches, and reading their outcome;
  - `loader`, `steam` — managing MelonLoader/BepInEx installs and Steam launch options;
  - `json` — the GitHub release list read and the launch configuration written, through
    `serde_json`;
  - `text`, `num`, `path`, `order` — text, numbers, Unix paths and sorting as std has them.
- `app/` — the programs around it: `main.rs` is the `zyringe-inject` binary (ptrace,
  process memory, staging files); the other modules are the desktop backend (scanning
  `/proc`, running `pkexec`/`curl`/Steam, zip extraction, serde shapes).
- `tests/` — tests of the library on concrete inputs.
