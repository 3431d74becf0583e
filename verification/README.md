# herdr-worktree-setup

A herdr plugin that makes a new git worktree immediately usable: it brings over
the ignored development state and caches of the main checkout, trusts tool
configuration, installs dependencies and runs custom steps.

`src/` is a verified library. It decides everything: which configuration holds,
what is a candidate, what becomes of it, where it may be written, which commands
run and how their output and outcomes are told. Each function has a contract over
plain mathematical values, and the promises that the tool makes as a whole are
proved as `law_` functions beside what they speak of.

- `config`: layered configuration; a repository's file only ever restricts.
- `discover`, `rules`, `planner`: from git's listing to a plan.
- `fsops`: contained destinations, copy caps, reflinks and symlinks.
- `detect`, `exec`, `shellenv`, `envmap`: commands and their environment.
- `job`, `hook`, `herdr`: jobs, locks and herdr's pane.
- `pipeline`: the steps of a job, their gates and outcomes.
- `ui`: the screen as a state, its keys, its layout, and the line printer.
- `text`, `pieces`, `digits`, `paths`, `order`, `bytes`, `ostext`, `json`: what the
  others stand on.

`app/` is the program around it: arguments, processes, files, threads and the
terminal. It looks at the world, hands plain values to the library and does what
the library says.

`tests/` runs the library on concrete values.
