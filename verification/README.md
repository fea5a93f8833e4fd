# rung

`rung` manages stacks of dependent git branches and their pull requests:
creating and adopting branches, syncing them onto their parents, submitting
and merging their pull requests, restacking, folding, splitting and
absorbing changes.

## Layout

- `src/` — the library `rung_cli`, verified with Verus. It holds the
  decisions of every command: the model of the stack and how each command
  changes it, which branches a command touches and in which order, which
  pull requests get created, updated or retargeted (and what a submitted
  branch reports), the text of the stack comment, and the reports and most
  messages of the commands. The functions
  take what was read from the repository and the forge as plain values.
  The phases of `sync` are a step function (`next_sync_step`) that the
  program drives. Laws are public proof functions (for example
  `restack_keeps_stack_acyclic`, `merge_leaves_no_children`,
  `fold_removes_folded`, `next_then_prev_returns`, `integrity_clean`,
  `branch_chain_law`, `stack_comment_layout`, `ascii_title_is_stable`).
- `app/` — the command-line program around the library: argument parsing,
  the repository, the state files and the forge, prompts, and printing,
  including the progress and warning lines that only report how a git or
  forge call went (mostly in `merge`, `sync` and `restack`).
- `tests/` — tests of the library on concrete values.
