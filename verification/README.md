# s3-message-service

An asynchronous messaging service that keeps everything in object storage: a
directory tree, or a Backblaze B2 bucket through its S3-compatible API. Messages
are immutable objects; mailboxes, threads, broadcast audiences and read
markers are further objects under key prefixes that a listing walks one minute
at a time.

## Layout

- `src/` is the library, verified with Verus. Each module states what its
  functions do in `requires`/`ensures` over `Seq`, `Map` and spec functions.
  - `text`, `time`: characters, trimming, decimal and hex text; instants in UTC
    and their calendar fields.
  - `keys`: identifier normalization and the layout of every object key.
  - `ids`, `cursors`, `config`, `error`, `httpapi`: identifiers, page cursors,
    configuration from environment values, errors and their HTTP answers.
  - `domain`: the stored records.
  - `application`: requests, validation, defaults, the ids an operation needs,
    where a read by id finds its object.
  - `fingerprint`: the canonical text of each write request and its SHA-256
    fingerprint, which tells a retried request from a different one that
    reuses its idempotency key.
  - `workflow`: each write operation as a plan of writes; starting, resuming
    and completing idempotent operations; the read-marker rule.
  - `scan`: a listing as a state machine over minute windows, and its cursor.
  - `storage`: listing pages, the local-tree key rules, and the B2 key, error
    and response rules.
- `tests/` exercises the library on concrete values.
- `app/` is the program: environment, the stores' I/O, JSON, HTTP routes, and
  the loop that performs the library's plans against a store.
