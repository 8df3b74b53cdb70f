# cargo-pretty

A live status view for `cargo build`, `cargo run` and `cargo test`: which crates or tests are
running right now, how long each one took, how far it has come, and what went wrong.

```bash
cargo pretty                              # cargo build
cargo pretty build --release
cargo pretty run --bin server -- --port 8080
cargo pretty test
```

Everything after the verb goes to the matching cargo command. For `run`, arguments after `--` go to
the binary; for `test`, to the test harness.

The library under `src/` holds what the view decides and computes, verified with Verus:

- `commands`: the command line, and the answer to a verb that is not known
- `setup`, `ending`: what is settled before the build, what follows it, and what is left to do after
- `metadata`, `metrics`: the dependency graph, how much of it is built, sizes on disk
- `events`, `compile`, `test`, `json`: what cargo and the test binaries say, and what it comes to
- `state`, `names`: everything the view accumulates
- `screen`, `table`, `ui`, `stdout`, `text`: keys, frames, and every row on screen as text and look

Each function states in its contract what it returns. The `law_*` proof functions state what holds
across functions: that no argument is lost, that a failed test stays listed, that wrapped output is
the output again, that every row can be scrolled into view.

What is believed without proof is marked where it stands: a few functions of the standard library
(`text`, `metrics`, `commands`) and of `serde_json` (`json`).

`app/` is the program around it: processes, the file system, the terminal, and the colors and
numbers that are floating point.
