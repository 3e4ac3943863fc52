# capn

Git pre-commit and pre-push hooks for Rust workspaces, with the decisions verified in Verus.

`src/` is the library. It is handed what was read from disk and what commands printed, and says
what follows: which checks run, whether they pass, which files are written and in which order,
and what the user is told. Every function states this in its contract.

| Module | What it decides |
|--------|-----------------|
| `checks` | edition, external path dependencies, internal dev-dependencies |
| `commands::pre_commit` | staged files, the plan of the hook, the jobs that are applied |
| `commands::status` | the names of files as `git status` prints them |
| `commands::pre_push` | what changed, which crates that affects, the plan of the hook |
| `commands::cargo_tasks` | the arguments for cargo and what its output means |
| `commands::{init, migrate, clean, debug_packages}` | the other commands |
| `jobs` | formatting, the lockfile, arborium, READMEs; which jobs are kept, their order |
| `task` | the tasks that run in parallel; one failure cancels the rest |
| `config` | the settings, their defaults, `HAVE_MERCY` |
| `path`, `text`, `toml`, `output`, `paint` | paths, texts, manifests, command output, colours |
| `utils` | sizes of directories, lines of progress |
| `shim`, `install` | the `captain` shim and the installation from a checkout |

What `toml_edit`, `owo_colors`, `strip_ansi_escapes` and a few functions of the standard library
compute is taken on trust: `toml`, `paint`, `output` and `text` hold the functions that call
them, each with what is taken for granted in its contract.

`app/` is the program around the library: threads, spinners, files, commands, the command line.
`tests/` runs the library on concrete values.
