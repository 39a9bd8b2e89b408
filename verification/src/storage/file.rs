//! Reads and writes that somebody else performs on the database file.
//!
//! The engine never touches a file. It hands out [`ReadRequest`]s and
//! [`FileOp`]s, and is told when they have been carried out. A file is modelled
//! as the sequence of its bytes.

use crate::error::ErrorView;
use vstd::prelude::*;

verus! {

/// Length of the longest file: positioned I/O counts bytes with a signed
/// 64-bit integer.
pub const MAX_FILE_LEN: u64 = 0x7fff_ffff_ffff_ffff;

/// Asks for exactly `len` bytes starting at `offset`.
#[derive(Debug, Clone, Copy, PartialEq, Eq, Structural)]
pub struct ReadRequest {
    pub offset: u64,
    pub len: u64,
}

impl ReadRequest {
    /// The bytes asked for lie within the file.
    pub open spec fn within(self, file: Seq<u8>) -> bool {
        self.offset + self.len <= file.len()
    }

    /// What a file answers.
    pub open spec fn answer(self, file: Seq<u8>) -> Seq<u8> {
        file.subrange(self.offset as int, self.offset + self.len)
    }
}

/// One change to the file, or one request to make changes durable.
#[derive(Debug)]
pub enum FileOp {
    /// Write all of `bytes` at `offset`.
    Write { offset: u64, bytes: Vec<u8> },
    /// Flush the file's contents to disk.
    SyncData,
    /// Flush the file's contents and its metadata to disk.
    SyncAll,
}

/// What a [`FileOp`] does, with bytes as a sequence.
pub enum OpView {
    Write { offset: nat, bytes: Seq<u8> },
    SyncData,
    SyncAll,
}

impl View for FileOp {
    type V = OpView;

    open spec fn view(&self) -> OpView {
        match *self {
            FileOp::Write { offset, bytes } => OpView::Write {
                offset: offset as nat,
                bytes: bytes@,
            },
            FileOp::SyncData => OpView::SyncData,
            FileOp::SyncAll => OpView::SyncAll,
        }
    }
}

/// What a list of operations does, in order.
pub open spec fn ops_view(ops: Seq<FileOp>) -> Seq<OpView> {
    ops.map_values(|op: FileOp| op@)
}

/// The file after `bytes` have been written at `offset`. A write past the end
/// fills the gap with zeros; writing nothing changes nothing.
pub open spec fn write_at(file: Seq<u8>, offset: nat, bytes: Seq<u8>) -> Seq<u8> {
    if bytes.len() == 0 {
        file
    } else {
        let len = if file.len() < offset + bytes.len() {
            offset + bytes.len()
        } else {
            file.len()
        };
        Seq::new(
            len,
            |i: int|
                if offset <= i < offset + bytes.len() {
                    bytes[i - offset]
                } else if i < file.len() {
                    file[i]
                } else {
                    0u8
                },
        )
    }
}

/// The file after one operation.
pub open spec fn perform(file: Seq<u8>, op: OpView) -> Seq<u8> {
    match op {
        OpView::Write { offset, bytes } => write_at(file, offset, bytes),
        OpView::SyncData => file,
        OpView::SyncAll => file,
    }
}

/// The file after a list of operations, carried out in order.
pub open spec fn perform_all(file: Seq<u8>, ops: Seq<OpView>) -> Seq<u8>
    decreases ops.len(),
{
    if ops.len() == 0 {
        file
    } else {
        perform(perform_all(file, ops.drop_last()), ops.last())
    }
}

/// A crash while `op` was being carried out may have left `after` where there
/// was `before`: bytes outside the range being written are untouched, bytes
/// inside it may be anything, and the file may have grown to any length up to
/// the end of the range.
pub open spec fn torn(before: Seq<u8>, op: OpView, after: Seq<u8>) -> bool {
    match op {
        OpView::Write { offset, bytes } => {
            &&& before.len() <= after.len()
            &&& after.len() <= before.len() || after.len() <= offset + bytes.len()
            &&& forall|i: int|
                0 <= i < before.len() && !(offset <= i < offset + bytes.len()) ==> after[i]
                    == before[i]
        },
        OpView::SyncData => after == before,
        OpView::SyncAll => after == before,
    }
}

/// What is asked of a file, and what that does to it: a request is answered with
/// the bytes it names, a write puts its bytes where it says and touches no other,
/// and a flush changes nothing.
pub proof fn what_is_asked_of_a_file(file: Seq<u8>, request: ReadRequest, op: FileOp, i: int)
    ensures
        request.within(file) <==> request.offset + request.len <= file.len(),
        request.answer(file) == file.subrange(
            request.offset as int,
            request.offset + request.len,
        ),
        match op {
            FileOp::Write { offset, bytes } => {
                let after = perform(file, op@);
                let end = offset + bytes@.len();
                &&& op@ == (OpView::Write { offset: offset as nat, bytes: bytes@ })
                &&& after.len() == if bytes@.len() == 0 || end <= file.len() {
                    file.len() as int
                } else {
                    end
                }
                &&& offset <= i < end ==> after[i] == bytes@[i - offset]
                &&& 0 <= i < file.len() && !(offset <= i < end) ==> after[i] == file[i]
            },
            FileOp::SyncData => op@ is SyncData && perform(file, op@) == file,
            FileOp::SyncAll => op@ is SyncAll && perform(file, op@) == file,
        },
{
}

/// Operations are carried out one after another, in the order they are given.
pub proof fn operations_are_done_in_order(file: Seq<u8>, ops: Seq<FileOp>, last: FileOp)
    ensures
        ops_view(ops).len() == ops.len(),
        forall|i: int| 0 <= i < ops.len() ==> #[trigger] ops_view(ops)[i] == ops[i]@,
        perform_all(file, Seq::empty()) == file,
        perform_all(file, ops_view(ops.push(last))) == perform(
            perform_all(file, ops_view(ops)),
            last@,
        ),
{
    let all = ops_view(ops.push(last));
    assert(all.drop_last() =~= ops_view(ops));
    assert(all.last() == last@);
}

/// How a computation that reads a file ends.
pub enum Outcome<T> {
    /// With a result.
    Done(T),
    /// With an error of its own.
    Refused(ErrorView),
    /// With a read that the file could not answer.
    ReadFailed,
}

} // verus!
