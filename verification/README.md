# url_shortener

A URL shortener whose writes are replicated with Raft and whose history is
kept in content-addressed chunks. The rules of the service are a Verus
library under `src/`; the program under `app/` serves HTTP, runs Raft and
talks to RocksDB and the chunk stores.

## Library (`src/`)

- `codec` — decimal and hexadecimal text of `u64` (short URLs are hashes in
  hex, store keys are hashes in decimal), the big-endian log keys, and the hex
  form of digests. Short URLs read back as their hashes; log keys read back
  as their indices and sort as them.
- `ordered` — a string map and a string set kept in key order.
- `types` — the entries, ids, votes, memberships and snapshot descriptions.
- `chunk` — chunk bytes (JSON objects of strings) and their SHA-256 address.
- `state_machine` — applying entries, building a snapshot in steps (encode
  the recent writes, record the chunk, fold the writes into the history,
  clear them), and installing one (chunks still to fetch, hydrating a chunk,
  taking the snapshot's description).
- `log_store` — ordering and checking appended entries, the key ranges of
  reads, truncations and purges, and the reported log state.
- `shortener` — checking and hashing long URLs, what is written for them,
  and what reading a short URL finds.
- `cluster` — finding the leader, routing writes, addressing other nodes,
  the retry schedule, and the votes a node reports for itself.
- `bucket` — the decisions that make sure an S3 bucket exists.
- `blob_store`, `params` — where chunks and blobs live, a node's settings.

The laws the library proves stand as public proof functions beside the
functions they speak of (`lemma_*`).

## Program (`app/`)

`main.rs` starts a cluster node; `simple_server.rs` holds the single-node
server that keeps URLs in an in-memory cache.
