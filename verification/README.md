# seekr

Seekr captures, indexes and recalls terminal commands, locally.

- `src/` is the verified library: command records and their search form,
  privacy filtering and redaction, collapsing of repeated runs, fuzzy
  ranking, zsh history parsing, search statement planning, the interactive
  search's key handling, and the text of every report. Each public function
  carries a contract that Verus proves.
- `app/` is the `seekr` program around it: command-line parsing, the settings
  file, the SQLite store, git and clipboard processes, and the terminal.
- `tests/` runs the library on concrete inputs.
