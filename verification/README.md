# codex_resume_tracker

A verified core for a tracker of Codex threads: it keeps the sessions that ended, gives them short
titles and summaries, lets the user search and edit them, and resumes one of them in a new terminal.

- `src/` is the library. Every function in it is verified by Verus against its contract. What the
  library believes of `serde_json`, `semver`, `chrono` and of a few functions of the standard
  library stands in the functions marked `external_body` and in the `assume_specification` items,
  each with a comment that says what is believed.
- `tests/` runs the library on concrete values.
- `app/` is the program around it: arguments, files, processes, the SQLite file, the network and the
  screen.

| Module | What it is about |
| --- | --- |
| `text`, `table`, `json`, `paths` | texts, tables, JSON values and paths |
| `config` | the configuration and its names |
| `app_server` | the messages to and from the Codex App Server |
| `summary` | what a provider reads, what it is asked and what is taken from its answer |
| `db` | the sessions, the tags and the jobs that are kept |
| `sync`, `hook` | runs over threads, step by step, and the end of a session |
| `setup`, `commands` | the questions of the setup, the hook file and the commands |
| `terminal` | the arguments that start a terminal |
| `doctor` | what is found wrong with a machine |
| `tui`, `screen` | what the keys do and what the screen says |
