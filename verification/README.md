# CodeHarbor

CodeHarbor is a desktop tool that runs Epitech-style C/C++ projects inside
Docker workspaces: one container per environment, a browser IDE on a local
port, and recorded build, test, clean and Valgrind runs that can be turned
into Markdown evaluation reports.

The decisions of the tool live in a library verified with Verus:

- `src/paths.rs`: the `~/.codeharbor` layout, Unix path joining, file names
  and extensions, and the checks on workspace-relative paths and report names.
- `src/environment.rs`: environment identifiers, the source of a new
  environment, the generated Compose file, IDE port selection, runtime status
  and ordering by creation time.
- `src/commands.rs`: the shell scripts run in a workspace and how a command's
  outcome is reported.
- `src/evaluation.rs`: run records, history ordering, and the full evaluation
  pipeline as a state machine (build, tests, Valgrind, report).
- `src/project.rs`: Makefile targets, language counts, executables and
  artifacts of a project folder.
- `src/report.rs`: the Markdown evaluation report, report file names and the
  listing of report files.
- `src/text.rs`, `src/sorting.rs`: string and ordering helpers shared by the
  modules above.

`app/` is the Tauri application around the library: commands, file system,
processes, the clock and the local network. `tests/` exercises the library on
concrete values.
