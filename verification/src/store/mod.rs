//! Content-addressed chunks and the changes that are made to a folder.
pub mod chunks;
pub mod content_laws;
pub mod error;
pub mod observe;
pub mod operations;
pub mod preservation;
pub mod preservation_laws;
