//! The single-file storage engine: an append-only record log, a master index,
//! and two header slots that commit them atomically.
//!
//! The executable parts are [`header`], [`record`], [`index`], [`log`],
//! [`pos_io`] and [`engine`]; [`protocol`] holds what the engine exchanges with
//! the owner of the file. What a file means is said in [`state`], and what holds
//! of the whole is proved in [`consistency`], [`recovery`], [`operations`] and
//! [`history`].

pub mod consistency;
pub mod engine;
pub mod file;
pub mod header;
pub mod history;
pub mod index;
pub mod log;
pub mod operations;
pub mod pos_io;
pub mod protocol;
pub mod record;
pub mod recovery;
pub mod state;

pub use engine::{Stats, StorageEngine};
pub use header::{Header, FORMAT_VERSION, HEADER_SIZE, HEADER_SLOTS, LOG_START, MAGIC};
pub use index::MasterIndex;
pub use record::{DocId, Record, RecordKind, MAX_RECORD_LEN, RECORD_HEADER_SIZE};
