# brigid

Identity logic of a passkey-based OpenID Connect provider, verified with Verus.

Users hold a public root identity `username@server` (a `did:web` DID) and may act under
private aliases (`did:peer:2`). Relying parties receive EdDSA-signed ID tokens whose subject
is a VSID: an HKDF-derived identifier that is stable per user and relying party and differs
between relying parties.

## Layout

- `src/` — the verified library.
  - `text`, `json`: string helpers and the JSON text of strings and integers, written and
    read back.
  - `error`, `root_id`, `alias`, `identifier`, `vsid`: identities and the VSID.
  - `codec`, `signing_key`: the contracts of the hashing, encoding and Ed25519 primitives
    provided by outside crates.
  - `did`, `net_guard`: `did:web` and `did:peer`, DID documents, and the address guard of the
    `did:web` resolver.
  - `claims`, `jti`, `token`, `discovery`: ID-token claims, replay protection, issuing and
    validating tokens, JWKS and OpenID discovery metadata.
  - `session`, `api`, `store`, `passkey`: decisions of the HTTP service, its pending WebAuthn
    ceremonies, its encrypted store and its passkey handling.
- `tests/` — tests of the library.
- `app/` — wire (serde) forms of the library's types and `did:web` resolution over HTTPS.
