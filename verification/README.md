# pgdog_quota

Per-database size quotas for a PostgreSQL connection proxy. A monitor polls the
size of each database with a limit; while a database is over its limit, queries
that write to it are refused, and its server is told to refuse writes too.
Statements that shrink the database still pass the proxy.

- `src/`: the library. Every function is verified with Verus against its
  contract, but for the wrappers in `connect` that set up a connection of
  `tokio_postgres`; the laws that relate several functions are public proof
  functions of their modules.
  - `config`, `targets`: which databases have a limit, and how to reach them
  - `quota`: statuses and limits set at run time
  - `monitor`: the poll as a state machine of actions and events
  - `connect`: connection settings and statements of the monitor
  - `classify`, `hooks`: which queries are refused
  - `admin`: `SET QUOTA`, `RESET QUOTA`, `SHOW QUOTAS`
  - `metrics`: OpenMetrics text
  - `names`, `text`: maps by name, words, numbers, comparison of names
- `tests/`: tests of the library.
- `app/`: the running side: shared state, network connections, the monitor task,
  the metrics endpoint, reading parse trees of `pg_query`.
