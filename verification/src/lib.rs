//! An encrypted document store: a document's JSON text is packed into a
//! one-entry archive, sealed chunk by chunk under nonces derived from a random
//! root nonce, and framed behind a fixed binary header. An index ledger keeps
//! one record per container identifier.

pub mod buffer;
pub mod error;
pub mod primitives;
pub mod nonce;
pub mod keys;
pub mod packager;
pub mod stream;
pub mod container;
pub mod ledger;
pub mod store;
pub mod items;
