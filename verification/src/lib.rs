//! Backend core for a knowledge-graph glossary: credential storage with
//! salted hashes, signed expiring session tokens, an admin gate, and a
//! generic mutation dispatcher shared by every writable resource kind.

pub mod auth;
pub mod resources;
pub mod routes;
pub mod store;
