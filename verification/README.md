# fees_tooling

Tooling around DoubleZero's revenue distribution program: it reads the
program's accounts from Solana RPC, downloads epoch snapshots from the public
bucket, and writes per-epoch JSON bundles, an epoch report and an enrichment
of the on-chain data with inventory and telemetry aggregates.

The library under `src/` is verified with Verus; every function there carries
a contract, and the proof functions state the properties the library keeps.

- `dz`, `le_bytes`, `zero_copy`: account layouts, read field by field from
  little-endian bytes after an 8-byte discriminator; program-derived addresses.
- `onchain`, `dumps`: reading accounts out of JSON-RPC answers, the
  distributions index (sorted by epoch), and the records written per account.
- `snapshot`: bucket listings, snapshot names and addresses, retry schedule.
- `report`: fees CSV totals, publishability, reconciliation, the report.
- `enrich`: the integer aggregation behind `enriched_epoch.json`: per
  contributor device, link and telemetry counts, baseline groups, totals.
- `cli`: the commands' arguments.
- `text`: character-level text helpers with their specifications.
- `bindings`: the calls into outside crates (`solana-program`, `sha2`,
  `base64`, `bs58`, `hex`, `ruint`), each with the contract it is trusted for.

`app/` is the command-line program around the library: HTTP, files, threads,
environment, JSON (de)serialization and the floating-point statistics.
