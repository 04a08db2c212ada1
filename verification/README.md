# recall

A searchable history of shell sessions. A shell hook hands over every command with its
outcome and its output; `recall` redacts what looks like a secret and stores the rest
in `~/.recall/history.db`. The history can be searched by text or by meaning, browsed
in the terminal, and replayed.

    recall capture <command> <cwd> <exit code> <branch> <repo> <duration> <stdout> <stderr>
    recall [--failed] [--today] [--semantic] <words>
    recall index
    recall replay <id>

## Layout

- `src/` is the library, verified with Verus: what is captured and redacted, what is
  asked of the database, how semantic matches are ranked, what the browser shows and
  how keys move through it, and when a command is replayed.
- `app/` is the program around it: files, the database, the embedding model, the
  terminal, the clock and the time zone.
- `tests/` runs the library, the database statements against a database in memory.

## What is taken on trust

The library believes three contracts that it does not prove: what the regex crate does
with a pattern (`redact.rs`), how chrono shows a time stamp (`time.rs`), and that
`String::push` appends a character (`text.rs`). The first of them speaks of two things
that it names and does not define: whether a pattern compiles, and where its matches
lie in a text.
