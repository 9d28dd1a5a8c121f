# detox-mac

macOS maintenance from the command line: measure and clean caches, logs,
package-manager stores and trashes; list what eats memory and stop it; find
what uninstalled applications left behind; undo a cleanup.

The crate is in two parts.

- `src/` is the library, written in Verus: every function carries a contract
  (`requires` / `ensures`) over a mathematical model of its inputs, and Verus
  proves the body meets it. This is where the decisions live — which targets a
  command means, what an exclusion protects, how a measurement adds up, which
  leftovers belong to no installed application, what an undo may restore, how
  the output of `ps`, `top`, `vm_stat`, `docker`, `launchctl` or `mdls` is read.
  Properties that span several functions are stated as public proof functions
  next to the code they speak of.
- `app/` is the program around it, in plain Rust: argument parsing (clap),
  reading the disk, running commands, threads, JSON (serde) and the terminal.
  It hands the library plain values and prints what comes back.

Layout of `src/`:

| Module | What it decides |
|---|---|
| `cli` | target expansion, selections, command-line choices |
| `config` | the configuration file and exclusion patterns |
| `format`, `text`, `glob` | sizes, dates, paths and the text handling under them |
| `ui` | colours, progress lines, confirmations |
| `sys` | command results, measuring and removing files, machine readings |
| `task` | the cleaning targets, Docker, Homebrew, journal and undo, leftovers, memory, scheduling, startup agents |
| `modules` | the first generation of the tool: one report of log lines per operation |

`tests/` runs the library on concrete values.
