# htknow

The rules and computations behind a knowledge-base service (access control,
request validation, text processing, archive extraction limits, graph
building, entity co-occurrence counts, the advanced-search step machine,
search result selection, content hashes, wiki views, stored metadata), written in
Verus with the contract of each function proved.

- `src/` is the verified library. Calls into outside crates (base64,
  serde_json, regex, aho-corasick, sha2) and the few std functions that vstd does not specify go
  through small trusted wrappers whose contracts are stated in their doc
  comments.
- `tests/` runs the library with the real outside crates.
- `app/` is the unverified edge: reading the environment, a command-line
  entry point, archive extraction with zip, tar, gzip, bzip2 and xz, and the
  floating-point weights of co-occurrence relations.
