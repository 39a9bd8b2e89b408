//! Error types for cndb.

use crate::storage::record::DocId;
use vstd::prelude::*;

verus! {

/// Every way a cndb operation can be refused.
///
/// A file operation that fails is reported by whoever performs it; nothing in
/// this crate touches a file.
#[allow(inconsistent_fields)]
#[derive(Debug)]
pub enum CndbError {
    /// The file does not open with the cndb magic bytes.
    BadMagic { expected: [u8; 4], found: [u8; 4] },
    /// The file was written by another version of the format.
    UnsupportedVersion { found: u32, supported: u32 },
    /// Both header slots are corrupt, or this is not a cndb database.
    NoValidHeader,
    /// A header slot failed its checksum.
    HeaderChecksum { slot: usize },
    /// A record failed its checksum.
    RecordChecksum { offset: u64 },
    /// A record declares more bytes than the limit.
    RecordTooLarge { offset: u64, len: u64, max: u64 },
    /// A record carries a tag that no kind has.
    UnknownRecordKind { kind: u8, offset: u64 },
    /// The file ends before what it must hold.
    UnexpectedEof { offset: u64, needed: u64 },
    /// No document has this id.
    NotFound(DocId),
    /// The document was deleted.
    Deleted(DocId),
    /// A document could not be turned into BSON, or back.
    Bson(String),
    /// Only JSON objects can be stored as documents.
    NotAnObject { found: &'static str },
    /// The master index is corrupt.
    CorruptIndex(String),
}

/// What a [`CndbError`] says, with text as a sequence of characters.
#[allow(inconsistent_fields)]
pub enum ErrorView {
    BadMagic { expected: Seq<u8>, found: Seq<u8> },
    UnsupportedVersion { found: u32, supported: u32 },
    NoValidHeader,
    HeaderChecksum { slot: nat },
    RecordChecksum { offset: nat },
    RecordTooLarge { offset: nat, len: nat, max: nat },
    UnknownRecordKind { kind: u8, offset: nat },
    UnexpectedEof { offset: nat, needed: nat },
    NotFound(DocId),
    Deleted(DocId),
    Bson(Seq<char>),
    NotAnObject { found: Seq<char> },
    CorruptIndex(Seq<char>),
}

impl View for CndbError {
    type V = ErrorView;

    open spec fn view(&self) -> ErrorView {
        match *self {
            CndbError::BadMagic { expected, found } => ErrorView::BadMagic {
                expected: expected@,
                found: found@,
            },
            CndbError::UnsupportedVersion { found, supported } => ErrorView::UnsupportedVersion {
                found,
                supported,
            },
            CndbError::NoValidHeader => ErrorView::NoValidHeader,
            CndbError::HeaderChecksum { slot } => ErrorView::HeaderChecksum { slot: slot as nat },
            CndbError::RecordChecksum { offset } => ErrorView::RecordChecksum {
                offset: offset as nat,
            },
            CndbError::RecordTooLarge { offset, len, max } => ErrorView::RecordTooLarge {
                offset: offset as nat,
                len: len as nat,
                max: max as nat,
            },
            CndbError::UnknownRecordKind { kind, offset } => ErrorView::UnknownRecordKind {
                kind,
                offset: offset as nat,
            },
            CndbError::UnexpectedEof { offset, needed } => ErrorView::UnexpectedEof {
                offset: offset as nat,
                needed: needed as nat,
            },
            CndbError::NotFound(id) => ErrorView::NotFound(id),
            CndbError::Deleted(id) => ErrorView::Deleted(id),
            CndbError::Bson(text) => ErrorView::Bson(text@),
            CndbError::NotAnObject { found } => ErrorView::NotAnObject { found: found@ },
            CndbError::CorruptIndex(text) => ErrorView::CorruptIndex(text@),
        }
    }
}

/// A result with its error as an [`ErrorView`].
pub open spec fn result_view<T>(result: Result<T, CndbError>) -> Result<T, ErrorView> {
    match result {
        Ok(value) => Ok(value),
        Err(e) => Err(e@),
    }
}

/// An error's view is of the same variant and holds the same values.
pub proof fn an_error_shows_what_it_holds(e: CndbError)
    ensures
        match e {
            CndbError::BadMagic { expected, found } => e@ == (ErrorView::BadMagic {
                expected: expected@,
                found: found@,
            }),
            CndbError::UnsupportedVersion { found, supported } => e@ == (
            ErrorView::UnsupportedVersion { found, supported }),
            CndbError::NoValidHeader => e@ == ErrorView::NoValidHeader,
            CndbError::HeaderChecksum { slot } => e@ == (ErrorView::HeaderChecksum {
                slot: slot as nat,
            }),
            CndbError::RecordChecksum { offset } => e@ == (ErrorView::RecordChecksum {
                offset: offset as nat,
            }),
            CndbError::RecordTooLarge { offset, len, max } => e@ == (ErrorView::RecordTooLarge {
                offset: offset as nat,
                len: len as nat,
                max: max as nat,
            }),
            CndbError::UnknownRecordKind { kind, offset } => e@ == (ErrorView::UnknownRecordKind {
                kind,
                offset: offset as nat,
            }),
            CndbError::UnexpectedEof { offset, needed } => e@ == (ErrorView::UnexpectedEof {
                offset: offset as nat,
                needed: needed as nat,
            }),
            CndbError::NotFound(id) => e@ == ErrorView::NotFound(id),
            CndbError::Deleted(id) => e@ == ErrorView::Deleted(id),
            CndbError::Bson(text) => e@ == ErrorView::Bson(text@),
            CndbError::NotAnObject { found } => e@ == (ErrorView::NotAnObject { found: found@ }),
            CndbError::CorruptIndex(text) => e@ == ErrorView::CorruptIndex(text@),
        },
{
}

} // verus!
