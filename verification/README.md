# crawler

A web crawler whose decisions are verified with Verus.

- `src/` is the verified library: the URL reservoir (a closable FIFO queue
  with its statistics), the client's decisions on a response (content type,
  body limit, timeout race, counting), the link grammar and the resolution of
  a page's links into URLs, the Bloom filter (with its MurmurHash3) that keeps
  URLs from being queued twice and files from being stored twice, the
  decision on which gathered files to store and where, the configuration checks and the statistics
  report.
- `app/` is the program around it: configuration file, threads, the HTTP
  client on hyper and tokio-core, the Ctrl-C handler and the periodic report.
- `tests/` runs the library on concrete values.
