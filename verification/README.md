# odm

ODM (Orchestrated Development Management) keeps a poly-repo Workspace in one config:
Projects and Progens (note vaults), managed checkouts with a pin file, a managed
`.gitignore` block, worktree slots, Actions, Generators and agent packs.

- `src/` is the library, verified with Verus: path policy, config maps, pin state and
  pin maintenance, membership changes, the gitignore block, doctor checks, worktree
  slot rules (listed by `odm status` and checked by `odm doctor`; `odm project worktree`
  itself answers "not implemented"), agent pack registry, Progen note parsing and search planning, and the
  human renderings of listings, status, doctor, sync and pin results. Each public
  function states its result in its contract; the laws that relate several functions
  are public proof functions (`lemma_*`).
- `app/` is the `odm` program: command-line parsing, files, `git` and `sh` processes,
  the SQLite note index, the JSON shapes of `--json` output (serde) and the one-line
  confirmations of init, add and rm, and the Progen reindex and doctor lines. It probes the disk, hands the facts to the library and carries
  out what the library decides.
- `tests/` runs the library on concrete values.
