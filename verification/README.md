# roll_flow

A verified library for a branch-pipeline workflow in git repositories. Work starts
on numbered *roll* branches off the stable branch, graduates into the *rolling*
branch, and is promoted from there to *stable*. Hotfixes land on stable directly and
are reintegrated into rolling.

The library decides and says; it runs nothing. Git's answers come in as plain values,
and commands, decisions and texts go out. What alternates between git and a decision (a
merge, a promotion, the dashboard) is a state machine: it hands out an action and takes
in what came of it.

## Layout

- `src/text.rs`, `num.rs`, `seqs.rs`: texts, numbers and sequences, with their models.
- `src/error.rs`, `failure.rs`: errors and failures with their causes.
- `src/document.rs`, `config.rs`: TOML documents, and the configuration in its layers.
- `src/version.rs`: versions, their order, and the manifest that holds them.
- `src/git.rs`, `proc.rs`, `branches.rs`, `sync.rs`: what git is asked and what its
  answers mean.
- `src/clean.rs`: which stale branches can go.
- `src/ops/`: creating, integrating, verifying, graduating, promoting, updating and
  deleting.
- `src/report/`: what the commands print.
- `src/tui/`: the dashboard: its state, its keys, and what it shows.
- `tests/`: the library on concrete values.
- `app/`: the `rf` program around the library: arguments, processes, files, terminal.

## Contracts

Every contract is stated over mathematical models. A text is a sequence of characters,
a type with texts in it has a `View` counterpart, and `deep_view` leads from one to the
other. Proof functions whose names begin with `law_` state what holds of the library as
a whole.
