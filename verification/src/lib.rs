//! The durable key-value store behind a redirect-shortcut service: an
//! in-memory map of shortcut entries, a line-oriented snapshot format, an
//! append-only generation log, and the restore logic that rebuilds the map
//! at startup.

pub mod authentication;
pub mod configuration;
pub mod genlog;
pub mod restore;
pub mod rows;
pub mod routes;
pub mod schema;
pub mod store;
pub mod text;
