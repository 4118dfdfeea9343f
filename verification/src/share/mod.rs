//! Owner-mediated, folder-scoped sharing.
pub mod activation;
pub mod admission_laws;
pub mod applies;
pub mod authority;
pub mod authority_laws;
pub mod catalog;
pub mod catalog_size;
pub mod causal;
pub mod causal_laws;
pub mod codec;
pub mod connections;
pub mod error;
pub mod grant_laws;
pub mod grants;
pub mod handler;
pub mod heartbeats;
pub mod identity;
pub mod intents;
pub mod laws;
pub mod member_laws;
pub mod owner;
pub mod registry;
pub mod registry_laws;
pub mod request_laws;
pub mod roster;
pub mod roster_laws;
pub mod rows;
pub mod session;
pub mod signed_laws;
pub mod ticket;
pub mod trust_laws;
pub mod wire;
