# gcs_artifact

A Google Cloud Storage artifact store with a verified core.

- `src/` (verified with Verus): object keys per artifact type, zstd framing of
  artifact bodies, the chunk plan of large downloads and their reassembly,
  upload media selection, and the meaning of storage replies; together with
  the proofs that two artifacts share a key only when they have the same id
  and types that share a prefix (the types without a prefix of their own
  share `other/`), that chunk batches cover every chunk
  once, that reassembly rebuilds an object whatever the arrival order, and
  that an uploaded artifact downloads unchanged.
- `app/`: the asynchronous client that authenticates, makes the requests, runs
  the download workers and hands their results to the verified core.
- `tests/`: unit tests of the verified core.
