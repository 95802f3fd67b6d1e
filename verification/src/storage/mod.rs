//! History storage: what gets recorded, where its bytes live, and which
//! records the retention cap evicts.

pub mod fingerprint;
pub mod policy;
pub mod schema;
