# rspaced

Boot-artifact composition for rspaced: pulling OpenShift release payloads
into a provenance-tracked, content-addressed store, and staging RHCOS install
media from the mirror.

The library (`src/`) is verified with Verus. It holds the rules of the
pipeline, each with a contract:

- `client`, `types`, `media_type` — image references, Distribution v2 URLs,
  `WWW-Authenticate: Bearer` challenges, and resolving an image index to the
  platform's manifest.
- `digest` — `sha256:<hex>` digests, streaming hashing and verification.
- `store` — the blob store's naming and digest check, and the bookkeeping of
  verifying a store at rest.
- `layer` — which tar entries of a layer are unpacked and where (an entry is
  skipped when its path is absolute or names `..`, and refused when the
  directory it would be made in resolves outside the layer), whiteout
  counting, the order directory modes are applied in, and a packed layer's
  and image's provenance.
- `release`, `payload`, `provenance` — the components of a release payload,
  which of them are packed, and the record of a run.
- `coreos` — choosing the CoreOS ISO a store holds for a selector.
- `auth` — credentials from a Docker config / pull secret.
- `artifacts`, `mirror`, `stage`, `sumfile`, `output`, `registry`, `cli` —
  the RHCOS artifact set, mirror paths and version discovery, online/offline
  staging, and checksum lists.
- `text` — character-level string helpers the parsers share.

`app/` is the program around it: command-line parsing, HTTP, tar and file
I/O, and the JSON forms of the library's types. `tests/` exercises the
library.
