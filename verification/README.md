# logbox

Captures the output of development commands into a local log database, tagged
with the git branch, commit and repository they ran in, and answers queries
over it: list and page through lines, search them for a keyword (case-insensitive),
list sessions, and summarise a session.

## Layout

- `src/` is the library, written in Verus and verified:
  - `model.rs` the mathematical model of the database (sessions, log lines, the
    order in which queries return them) and the result of each query;
  - `db.rs` the executable store and the queries, each proved against the model;
  - `fold.rs` case-insensitive keyword and prefix matching;
  - `instant.rs` instants: RFC 3339 text, the clock, UTC timestamps;
  - `since.rs` relative (`30m`, `2h`, `1d`) and RFC 3339 time bounds, compared as instants;
  - `git.rs` branch, commit and repository names from `git` output;
  - `collector.rs` the line buffer that batches captured output;
  - `display.rs`, `number.rs`, `text.rs`, `paths.rs`, `service.rs` formatting,
    integer parsing, string helpers, the database path and the request types;
  - `laws.rs` properties of the library as a whole, proved over the model.
- `app/` is the program around it: the command line, the SQLite file, the
  capture threads, running `git`, and the MCP server.
- `tests/` runs the library on concrete values.

## Commands

`logbox collect [--quiet] [--cwd DIR]`, `logbox sessions [--branch B] [--commit PREFIX]
[--since T] [--limit N] [--json]`, `logbox logs [--session ID] [--branch B] [--since T]
[--until T] [--limit N] [--offset N] [--json]`, `logbox search KEYWORD [--last T]
[--session ID] [--branch B] [--limit N] [--json]`, `logbox stats [ID] [--json]` and
`logbox serve`. These are all the commands; there is no session comparison and no regular
expression search. A time `T` is an RFC 3339 timestamp (any offset) or a span such as
`30m`, `2h` or `1d` before now; bounds are compared as instants. Keywords and commit
prefixes match literally, ignoring the case of ASCII letters.
