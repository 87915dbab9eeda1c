//! Identity and credential subsystem of a private package-registry server.
//!
//! The crate models the persistent identity data (users, roles, API keys,
//! crates, ownership edges), the hashing and verification schemes for
//! passwords and bearer tokens, and the per-request authentication dispatch
//! that selects a credential channel by request path.

pub mod auth;
pub mod crypto;
pub mod database;
pub mod encoding;
pub mod frontend;
