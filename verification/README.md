# SpecMatrix

Compatibility testing for observability backends: send payloads that are
unusual but valid, read them back, and report what each backend did with
them — `PASS` (written and read back unchanged), `REJECT` (refused at
ingest), `ALTER` (accepted, then different or gone when read back), or `N/A`
(the backend could not be asked).

## Layout

- `src/` — the library, verified with Verus. Every rule the runner applies
  lives here with its contract: choosing an encoding, rendering templates,
  reading the fields of OTLP, Loki, Elasticsearch and remote-write payloads,
  comparing what was sent with what came back, deciding verdicts, the time
  variables a payload may name, the report table and the matrix pages.
  `src/laws.rs` holds the properties that span several functions.
- `app/` — the program around it: the command line, files, the network,
  polling, the clock, docker, serde's JSON and YAML, and the steps that put
  doubles on protobuf messages.
- `tests/` — tests of the library on concrete values.
