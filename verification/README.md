# onec_export

Exports a 1C:Enterprise information base into files that can be kept under
version control: the configuration and its extensions through `ibcmd`, and the
additional reports and data processors straight from the database.

`src/` is the library. It holds the rules of the export as Rust verified with
Verus: which commands are run and how their secrets are hidden in the log, what
has changed since the last run, how stored processors are unpacked and laid out,
how replies of the database, of `git` and of the service inside a base are read.
Work that has to wait for the outside is a state machine there: the library says
what to do next and is told how it went.

`app/` is the program around it: arguments, window, files, network, processes
and the state database.

| module | what it is about |
| --- | --- |
| `text`, `strmap`, `sorting`, `codec`, `json`, `paths` | strings, ordered maps, encodings, documents |
| `config`, `bases_config`, `cli`, `gui` | settings of one base, register of bases, arguments, window |
| `command_builder`, `runner`, `logging` | commands, their output, the log |
| `export`, `extension_run` | the course of an export |
| `processings`, `storage_mapping`, `sql_discovery` | the catalogue of processors and where it is stored |
| `mdxml`, `dcs`, `form_events` | the layout of an unpacked processor |
| `sql_signals`, `eventlog_watcher`, `mcp_client` | what tells of changes |
| `git_push` | commits and pushes |
| `state`, `state_db`, `error` | what is kept between runs, errors |
