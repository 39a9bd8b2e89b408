//! Documents and how they are stored.

pub mod codec;

pub use codec::{from_bson_bytes, to_bson_bytes};
