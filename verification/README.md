# vault-sync

Syncs Bitwarden Secrets Manager secrets to local `.env` files through the
`bws` CLI, pushes local files back, and updates itself from GitHub releases.

- `src/` is the library, verified with Verus: configuration completion
  (`config`), the access-token search (`token`), judging `bws` output and
  retries (`bws`), sync decisions (`sync`), self-update decisions (`update`, `version`),
  styled output lines (`reporter`, `styles`), and string helpers (`text`,
  `json`).
- `app/` is the command-line program: argument parsing, files, environment,
  processes, threads and HTTP, calling the library for every decision.
- `tests/` exercises the library on concrete values.
