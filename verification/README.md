# signal-cli

A fast, keyboard-first Signal client for the terminal, with its rules verified by
[Verus](https://github.com/verus-lang/verus).

- `src/` is the verified library: how messages, chats and files are found, shown
  and sorted, how keys and events change the interface, how dates, archives and
  release manifests are read. Each function states what it returns; the laws of
  the library are its public proof functions.
- `app/` is the program around it: the command line, the terminal, the network,
  the database and the files.
- `tests/` runs the library on concrete values.

Stable releases of a managed installation are downloaded in the background and
take effect at the next start. `SIGNAL_NO_UPDATE=1` switches that off.
