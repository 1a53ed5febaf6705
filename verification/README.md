# herd

The logic of Herd, a desktop board that runs one coding agent per ticket in
its own git worktree, written in Verus with its behaviour stated as
contracts and proved.

- `src/` is the verified library:
  - `worktree` derives branch names from tickets (`LOOP-101-fix-auth-bug`),
    plans how a ticket's worktree is created, and lays out the paths the app
    uses;
  - `pty` keeps each terminal session's scrollback (capped at 10,000 lines),
    the table of running sessions, and which program runs an agent;
  - `services` reads the scripts out of `package.json`, quotes shell words,
    picks the package manager, builds the commands of the dev services,
    decides whether a start request spawns anything, and keeps their capped
    output;
  - `github` reads `owner/repo` from a remote URL, builds the API URLs and
    decides a ticket's status from its pull request;
  - `linear` maps Linear's workflow states onto the board's statuses and
    builds the import picker's entries, current cycle included;
  - `db` merges an imported ticket into the stored one and builds the
    board's cards;
  - `keychain` keeps API tokens in the system keychain behind a cache;
  - `text` and `keyed` hold the string and association-list helpers the
    others share.
- `tests/` runs the library on concrete values.
- `app/` is the Tauri shell: commands, SQLite, HTTP, pseudo-terminals and
  `git`. It performs the I/O and hands what it reads to the library, which
  takes the decisions listed above; the PR webview's placement is the app's
  own.
