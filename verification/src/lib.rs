//! Folders that are kept in step between devices.
//!
//! A folder is a set of records, one to a path, each with a version vector. The library decides
//! what two such sets come to (`reconcile`, over `merkle`, `record`, `version`, `path` and
//! `conflict_path`), which device is asked for which chunk (`swarm`), who may take part in a folder
//! and for how long (`share`), and how a folder is changed without losing local work (`store`).
//!
//! It touches no file and no connection: what is known of them comes in as plain values, and what
//! is to be done goes out as plain values. So does the time, but for `ShareTicket::parse`, which
//! reads the clock to tell whether a key has expired; `ShareTicket::parse_at` takes the time instead.
//! Randomness, digests, signatures and byte forms of numbers and keys come from the crates that
//! provide them, through a few functions whose contracts are believed rather than proved; each says
//! what it claims.
//!
//! Each function says what it does. What holds of the whole, over several calls or of every state,
//! is stated and proved in the modules whose names end in `laws`.
pub mod conflict_path;
pub mod form_laws;
pub mod hash;
pub mod manifest;
pub mod merkle;
pub mod merkle_laws;
pub mod order;
pub mod path;
pub mod path_laws;
pub mod reconcile;
pub mod reconcile_laws;
pub mod record;
pub mod share;
pub mod store;
pub mod swarm;
pub mod swarm_laws;
pub mod table;
pub mod sync_laws;
pub mod text;
pub mod version;
