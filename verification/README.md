# DeltaWeave

Folders that are kept in step between devices, with the decisions proved.

A folder is a set of records, one to a path, each with a version vector. The library in `src/`
decides

- what two such sets come to, and which work is left to reach it (`reconcile`, `merkle`, `record`,
  `version`, `path`, `conflict_path`),
- which device is asked for which chunk of a file (`swarm`),
- who may take part in a folder, for how long, and when a revocation is complete (`share`),
- how a folder is changed without losing local work (`store`, `manifest`).

It is written in Rust and verified with Verus: every function states what it returns and how it
changes what it is given, and the modules `merkle_laws`, `reconcile_laws`, `share::laws`,
`share::authority_laws` and `store::preservation_laws` state what holds across them. No function of
it panics.

The library touches no file and no connection. What is known of them comes in as plain values, and
what is to be done goes out as plain values. So does the time, but for `ShareTicket::parse`, which
reads the clock to tell whether a key has expired; `ShareTicket::parse_at` takes the time instead.
Digests (`blake3`), hexadecimal text (`hex`), keys, signatures and randomness (`iroh`), byte forms
(`postcard`) and comparison in constant time (`subtle`) come from those crates. The few functions
that call them are marked `#[verifier::external_body]`, and each says what it claims of the call.

`app/` holds the rest: the filesystem, the databases (`redb`), connections (`iroh`, `tokio`) and the
forms in which values are stored and sent (`serde`, `postcard`). The index of a folder, the chunker
and the transfer of content are handed to it through the trait `Folder`.

`tests/` runs the library on values.
