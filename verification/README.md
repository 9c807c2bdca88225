# xtax-blob-storage

Blob storage with interchangeable backends (files below a directory, objects in a
bucket) and layers around them (key prefix, encryption, cleanup).

- `src/` holds the rules, verified with Verus: which keys are valid, what an
  operation asks of the file system, of the service or of the wrapped store next,
  and what the answers come to. Operations that wait for answers are written as
  steps; each step carries what to resume with. The modules named `laws` and
  `visit_laws` state what the operations do to a store as a whole.
- `tests/` runs the rules against files and a bucket in memory.
- `app/` performs the steps: it reads and writes files, talks to the object store,
  runs encryption providers and background maintenance, and offers the asynchronous
  `BlobStore` interface.

Texts and keys are sequences of characters in contracts, contents are sequences of
bytes, and a store is a map from keys to contents (`model`). What is taken from
`chrono`, `bytes` and the standard library without proof is marked
`external_body`, each with a comment on what it claims.
