# fs_provider

A blob store for waSCC actors that keeps containers as directories and blobs as files. Its logic
is verified with Verus.

- `src/` is the library. `provider` is the store: it takes calls in (`handle_call`), says step by
  step what is to be done in the file system, and goes on from what came of it (`resume`).
  `calls` tells which operation is called, `codec` reads and writes messages, `names` and `paths`
  keep files below the root directory, `uploads` puts chunks in order, `downloads` sends them.
  `laws` and `assembly` hold what is proved across calls.
- `tests/` runs the library.
- `app/` is the plugin that a host loads: files, locks, threads and logging.
