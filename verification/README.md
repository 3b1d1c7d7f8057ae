# dataforge

The decision logic of a local-first file inventory and deduplication tool,
written in Verus with its behaviour stated as contracts and proved.

- `agent`: the stages of an agent run, run modes and the ambiguity breaker.
- `ai`: assistance requests, disclosure policy and budget, redaction,
  consent tokens, preparation of the provider payload, provider invocation
  and validation of provider responses.
- `db`: duplicate representative scoring, folder contexts, integrity and
  liveness reports, the migration catalogue and its checksums, extraction
  segment checks, representation shape validation, stable identifiers,
  structural anomalies, rule matches, review guidance and mail thread
  checks.
- `cli`, `desktop`: exit codes and error objects shown to users.
- `json`, `json_read`, `text`, `digest`: canonical JSON writing, a JSON
  reader that refuses duplicate keys, text helpers and SHA-256 digests.

`app/` holds the parts that need floating point and serde derives.
