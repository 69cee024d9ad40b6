# Data Spark

Data Spark moves operational data into BI-ready datasets. A load is described
in a small YAML load definition: a local CSV or JSONL file as its source, a
Parquet dataset or a DuckDB table as its destination. Every load, whether it
succeeds or fails, leaves a JSON report and, where records were rejected, an
artifact that holds them.

The logic of a load is a Verus library: its behaviour is stated in contracts
and proved.

- `src/` is the library. It decides; it never reads, writes or waits by itself.
  What does is handed in: functions for single steps, iterators for records and
  lines, and the traits `Destination` and `DestinationWriter` for sessions. What
  is called more than once is handed in behind an adapter that remembers the
  calls: `Sleeper`, `Operation`, `LineWriter` and `RecordObserver`.
- `app/` is the `data-spark` command around it: arguments, files, threads, and
  the Parquet and DuckDB calls.
- `tests/` runs the library from outside, with everything it is handed in
  memory.

What the contracts say of a load as a whole:

- What is wrong with a definition is found in a fixed order, and the source is
  read only for a definition with which nothing is wrong.
- Nothing is written, neither the pinned schema file nor the destination, unless
  the records rejected stay within the definition's threshold.
- A source is read twice. The second read hands out exactly the records that the
  first one did not reject, in chunks of bounded size, and a source that changed
  in between fails the load.
- A failed write is attempted again only while its destination calls the failure
  transient, with the same chunk, no more often than the policy allows, and with
  one wait between two attempts, which doubles up to a cap. Every failed attempt
  of a retried write is logged.
- Concurrent writes never exceed their window, a failure stops further writes,
  and the failure that is reported is that of the earliest chunk.
- Every record of a successful load was either written or rejected. Unless
  writing it failed, the artifact holds one line for each rejected record, in
  the order of reading, and those that were put aside are merged in by the
  source lines they name.

In `src/json.rs`, `src/source.rs`, `src/text.rs`, `src/token.rs`,
`src/alignment.rs` and `src/parquet.rs` stand the few items that are believed
rather than proved, each with what it claims of the crate it calls.
