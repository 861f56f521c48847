# termai

Conversations with language models, kept in a local database and carried on
from a terminal.

The rules are in `src/`, where Verus proves them:

- `session/`: storing, resuming, renaming, listing, searching and repairing
  conversations. Each operation is a plan of writes; `session/tables.rs`
  describes what the writes do to the two tables, and `session/storage_laws.rs`
  what the tables hold afterwards.
- `repository/`: the SQL statements and the migration of the schema.
- `llm/`: which provider calls are sent again, and how they end.
- `chat/`: the interactive chat, turn by turn and command by command.
- `text.rs`, `time.rs`, `order.rs`, `screen.rs`: the vocabulary that the rest
  is stated in.

`app/` holds the database connection, the network and the terminal. `tests/`
runs the library, the statements against an in-memory database.
