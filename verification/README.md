# greptime_verified

Request-path logic of a time-series database, verified with Verus.

- `src/prewhere`: which columns a scan reads first, how filters become a mask,
  and how masks become a refined row selection.
- `src/tag_decode.rs`: tag columns out of encoded primary keys.
- `src/admin.rs`: the router of the admin service and its replies.
- `src/prom_remote_write.rs`: decompressing and decoding remote write requests.
- `src/trace_partition.rs`: partitioning and indexing of trace tables.

Arrow, Parquet, HTTP and compression crates are called through small functions
whose contracts are trusted; they stand in `src/columnar.rs`,
`src/row_selection.rs`, `src/projection.rs`, `src/http.rs` and at the top of
`src/prom_remote_write.rs`. What a table's predicates, primary key codec,
handlers and partition rules do is left to the traits that callers implement.

`app/` holds the ordinary Rust around the library: the `tonic` service, the
stream of batches, the pool of request buffers.
