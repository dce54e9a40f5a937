# radixdb_engine

The decision logic of an MVCC storage engine, verified with Verus.

An MVCC engine alternates decisions with work on disk, on threads and under
locks. The decisions stand in `src/`, each with a contract that Verus proves.
Nothing there performs I/O, takes a lock or reads a clock: callers hand in what
they observed and act on what comes back. `app/` holds that other side.

| module        | what it decides                                                  |
| ------------- | ---------------------------------------------------------------- |
| `catalog`     | binding a catalog generation to runtime tables and views          |
| `compaction`  | which segments to merge, the merge itself, budgets and retries    |
| `ddl`         | admission, preparation and publication of schema changes          |
| `engine`      | opening, closing, checkpoints, truncation, upkeep, lookups        |
| `pressure`    | when commits wait for seals and merges                            |
| `publication` | what a new physical generation holds                              |
| `recovery`    | log replay, recovered segments, index backfill, column defaults   |
| `runtime`     | the books of maintenance, and bounded statistics                  |
| `snapshot`    | taking, selecting, retaining and restoring physical snapshots     |
| `txn`         | what a transaction writes, and the constraints it has to meet     |
| `view`        | the stored form of a view                                         |

`bytes`, `error`, `fx`, `identity`, `model`, `namelist`, `names`, `num`, `schema`,
`sort`, `text` and `value` are what these share. What is believed of outside
crates rather than proved stands in `checksum`, `fx`, `namelist`, `names` and
`text`, with a note on each item.

Public proof functions whose names begin with `law_` state what holds of the
library as a whole.
