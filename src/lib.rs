//! A local password vault: named secrets kept encrypted at rest under a key
//! derived from a master passphrase.

pub mod container;
pub mod crypto;
pub mod errors;
pub mod pass;
pub mod schema;
