//! # cndb
//!
//! A single-file, embedded document store.
//!
//! cndb is a storage engine in its own right, not a layer over another
//! database. Everything lives in one portable `.cndb` file: an append-only
//! record log plus a master index committed atomically via two alternating
//! header slots.
//!
//! The crate does no I/O of its own: it decides what is read and written, and
//! whoever owns the file carries that out. A database is opened through
//! [`Cndb::open`], and [`storage::engine`] says how the two halves of each
//! operation fit together.

pub mod api;
pub mod checksum;
pub mod document;
pub mod error;
pub mod le;
pub mod storage;
pub mod text;

pub use api::Cndb;
pub use document::{from_bson_bytes, to_bson_bytes};
pub use error::CndbError;
pub use storage::{DocId, MasterIndex, Record, RecordKind, Stats, StorageEngine, FORMAT_VERSION};
