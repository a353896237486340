# sentinel_kit

A set of security building blocks whose logic is verified with Verus, plus the thin
services that put them on the network.

## Layout

- `src/` — the verified library.
  - `policy` — key stores and access logs audited by visitors (expiry, size).
  - `typestate` — an authenticator whose vault is reachable only from the
    authenticated state.
  - `identity` — Argon2id parameters, hashing, tuning, and a user directory with
    registration and login.
  - `shadow` — AES-256-GCM field encryption, key loading and the storage tool's commands.
  - `token` — EdDSA token claims, header rules and the public-key cache.
  - `audit` — canonical JSON, SHA-256 hash chaining, Ed25519 signing and chain
    verification.
  - `provision` — the decisions of the infrastructure health check.
  - `codec` — hexadecimal, Base64, UTF-8 and decimal helpers shared by the above.
- `tests/` — tests of the library on concrete values.
- `app/` — the command-line and HTTP front ends: environment, files, databases,
  Redis and JSON serialization.

Calls into outside crates (aes-gcm, argon2, sha2, ed25519-dalek, base64, hex,
jsonwebtoken) go through small trusted wrappers in `src/` whose doc comments say what
their contracts assume.
