# baza

A command-line tool for managing 1C:Enterprise infobases on Windows: open a
base, check whether it exists on a database server, dump it to a `.dt` file,
and clean up stale cache folders.

The library (`src/`) holds the logic, verified with Verus:

- `onec::connection` — the `Key="value";` connection-string reader and the
  targets it names (with a proved read-back law for well-formed strings);
- `onec::ibases` — the `ibases.v8i` list: registered IDs, sections, and
  registering folders and bases (with proved laws on what registering adds);
- `onec::cache` — which cache folders are infobase folders, and which are orphaned;
- `onec::ibcmd`, `onec::launcher` — platform versions, which `ibcmd.exe` or
  `1cestart.exe` to use, and their command lines;
- `commands` — the decisions of `run`, `check`, `dump` and `clean`;
- `config`, `cli`, `telegram`, `text` — settings, arguments, notifications and
  character-level helpers.

`app/` is the program around it: argument parsing, the settings file, terminal
and clipboard input, database queries, file system access and process launching.
