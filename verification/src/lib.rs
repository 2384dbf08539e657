//! Capability-token and key-exchange core for an encrypted-budgeting backend.
//!
//! The server never sees plaintext budget data: it stores opaque encrypted
//! blobs and the public halves of key pairs.  Access to a budget is proved by
//! signed, expiring capability tokens; key material is handed from user to
//! user through an asymmetric invitation handshake; and blob mutation is
//! guarded by a content digest to detect concurrent writers.

pub mod auth_store;
pub mod b64;
pub mod budget_store;
pub mod bytes;
pub mod claims;
pub mod conf;
pub mod crypto;
pub mod errors;
pub mod hexcode;
pub mod handlers;
pub mod ids;
pub mod jobs;
pub mod models;
pub mod numdec;
pub mod strutil;
pub mod user_store;
pub mod token;
pub mod validators;

pub use bytes::bytes_eq;
