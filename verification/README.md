# machine_operator

An operator that runs snapshots of machines on request and answers with their proven outputs. The
decisions are a verified library; the service around it performs the input and output.

| Request | What it does |
| --- | --- |
| `POST /classic/{machine_hash}` | runs the machine on the body and answers with its callbacks |
| `POST /ensure/{cid}/{machine_hash}/{size}` | makes sure that the snapshot is here |
| `GET /health` | says that the operator is well |

- `src/` is the library. Every item of it is verified with Verus. What it takes from other crates
  stands behind small functions whose contracts are stated and not proved; the comment above each
  says what is claimed.
- `tests/` runs the library with those crates.
- `app/` is the service: HTTP, the disk, the IPFS node, the runs and the signatures.

The settings are environment variables: `SNAPSHOT_DIR`, `MAX_THREADS_NUMBER` (3), `IPFS_URL`
(`http://127.0.0.1:5001`) and `BLS_PRIVATE_KEY`, which asks for signed answers.

Signatures are compiled in with `--cfg 'feature="bls_signing"'`. Without it a request still needs
its `X-Ruleset` header where `BLS_PRIVATE_KEY` is set, and every answer is unsigned.
