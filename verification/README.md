# pithos

Pithos runs coding agents in disposable workspaces. A session copies the
current repository, starts the configured harness in a rootless podman
container on that copy, and mirrors the result back when the user agrees.

The library under `src/` decides what a session does: what the container file
says, which arguments podman gets, which paths take part in a copy, which
changes are reported, how they are applied, what a session is called. It is
written in Verus, and each function carries the contract that it is proved to
meet. The program under `app/` reads and writes files, turns TOML into the
library's values, runs processes and talks to the terminal.

## Layout

| Module | What it holds |
| --- | --- |
| `text`, `order`, `paths`, `json` | text, sorting, paths and JSON values that the rest is stated over |
| `config`, `toolchain`, `image` | configuration, toolchain selection, container files |
| `builtin` | the harness of a configuration and what it asks of a session |
| `harness` | harness definitions: embedded, user supplied, their mounts and credentials |
| `networking` | egress rules, their delivery and the check that they are in force |
| `sandbox`, `mirror`, `snapshot`, `capture`, `workspace` | copying, comparing and mirroring trees |
| `registry`, `attach`, `session`, `run`, `pull` | sessions from start to pull |
| `audio`, `environment`, `platform`, `podman`, `progress`, `failure` | what sessions share with the host |

The proof functions whose names begin with `lemma_` and that are public state
what holds of several functions together: that mirroring leaves no change
behind and spares unmanaged paths, that a capture records what takes part and
no more, that metadata and contents find the same changes, that a toolchain
selection is expanded completely, that a quotation is read back by a shell as
the quoted word, and others.

## Harness names

One of the embedded harnesses is called after its product, `<base>-code`, and
keeps its files under names that follow from `<base>`: the command, a hidden
directory in the home, a memory file in capitals. `builtin::Names` works them
out. The registry and `builtin::select` take the names of that one product, and
know no other harness of that form.
