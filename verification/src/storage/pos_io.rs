//! Positioned file I/O that may move fewer bytes than asked for.
//!
//! Reads and writes take an explicit offset and never touch the file cursor.
//! Where the platform only offers calls that may stop short, a transfer is
//! repeated until every byte has been moved; this module keeps the account.

use vstd::prelude::*;

verus! {

/// A read or write of `len` bytes at `offset`, `done` of which have been moved.
#[derive(Debug, Clone, Copy, PartialEq, Eq, Structural)]
pub struct Transfer {
    pub offset: u64,
    pub len: usize,
    pub done: usize,
}

/// How one call ended.
#[derive(Debug, Clone, Copy, PartialEq, Eq, Structural)]
pub enum TransferEvent {
    /// It moved this many bytes.
    Moved(usize),
    /// It was interrupted before it moved any.
    Interrupted,
    /// It failed for another reason.
    Failed,
}

/// Where a transfer stands.
#[derive(Debug, Clone, Copy, PartialEq, Eq, Structural)]
pub enum TransferStep {
    /// Bytes are left: call again for what is missing.
    More(Transfer),
    /// Every byte has been moved.
    Done,
    /// Bytes are left and a call moved none: the file ended, or takes no more.
    Stalled,
    /// A call failed.
    Failed,
}

impl Transfer {
    /// No more bytes are accounted for than were asked for, and all of them lie
    /// at offsets that can be written down.
    pub open spec fn wf(self) -> bool {
        self.done <= self.len && self.offset + self.len <= u64::MAX
    }

    /// Begin to move `len` bytes at `offset`.
    pub fn start(offset: u64, len: usize) -> (step: TransferStep)
        ensures
            step == (if len == 0 {
                TransferStep::Done
            } else {
                TransferStep::More(Transfer { offset, len, done: 0 })
            }),
    {
        if len == 0 {
            TransferStep::Done
        } else {
            TransferStep::More(Transfer { offset, len, done: 0 })
        }
    }

    /// Offset of the next byte to move.
    pub fn position(&self) -> (position: u64)
        requires
            self.wf(),
        ensures
            position == self.offset + self.done,
    {
        self.offset + self.done as u64
    }

    /// Take note of how a call ended that was asked for the missing bytes.
    pub fn advance(self, event: TransferEvent) -> (step: TransferStep)
        requires
            self.wf(),
            self.done < self.len,
            event matches TransferEvent::Moved(n) ==> self.done + n <= self.len,
        ensures
            step == advanced(self, event),
            step matches TransferStep::More(next) ==> next.wf() && next.done < next.len,
    {
        match event {
            TransferEvent::Moved(n) => {
                let done = self.done + n;
                if n == 0 {
                    TransferStep::Stalled
                } else if done == self.len {
                    TransferStep::Done
                } else {
                    TransferStep::More(Transfer { offset: self.offset, len: self.len, done })
                }
            },
            TransferEvent::Interrupted => TransferStep::More(self),
            TransferEvent::Failed => TransferStep::Failed,
        }
    }
}

/// Where a transfer stands after a call. Interrupted calls are repeated, short
/// ones are continued, and a call that moves nothing ends the transfer.
pub open spec fn advanced(transfer: Transfer, event: TransferEvent) -> TransferStep {
    match event {
        TransferEvent::Moved(n) => if n == 0 {
            TransferStep::Stalled
        } else if transfer.done + n == transfer.len {
            TransferStep::Done
        } else {
            TransferStep::More(Transfer { done: (transfer.done + n) as usize, ..transfer })
        },
        TransferEvent::Interrupted => TransferStep::More(transfer),
        TransferEvent::Failed => TransferStep::Failed,
    }
}

/// The bytes that a list of calls moved in all.
pub open spec fn moved(events: Seq<TransferEvent>) -> nat
    decreases events.len(),
{
    if events.len() == 0 {
        0
    } else {
        moved(events.drop_last()) + match events.last() {
            TransferEvent::Moved(n) => n as nat,
            _ => 0,
        }
    }
}

/// Where a transfer stands after a list of calls, the last of which may have
/// ended it.
pub open spec fn after_calls(start: TransferStep, events: Seq<TransferEvent>) -> TransferStep
    decreases events.len(),
{
    if events.len() == 0 {
        start
    } else {
        match after_calls(start, events.drop_last()) {
            TransferStep::More(transfer) => advanced(transfer, events.last()),
            ended => ended,
        }
    }
}

/// A transfer is complete exactly when the calls it took moved all its bytes;
/// while it goes on, they moved what its account says.
pub proof fn a_transfer_moves_every_byte(offset: u64, len: usize, events: Seq<TransferEvent>)
    requires
        0 < len,
        offset + len <= u64::MAX,
        moved(events) <= len,
        events.len() > 0 ==> after_calls(
            TransferStep::More(Transfer { offset, len, done: 0 }),
            events.drop_last(),
        ) is More,
    ensures
        match after_calls(TransferStep::More(Transfer { offset, len, done: 0 }), events) {
            TransferStep::More(transfer) => transfer.wf() && transfer.offset == offset
                && transfer.len == len && transfer.done == moved(events) && moved(events) < len,
            TransferStep::Done => moved(events) == len,
            TransferStep::Stalled => moved(events) < len,
            TransferStep::Failed => moved(events) < len,
        },
    decreases events.len(),
{
    let start = TransferStep::More(Transfer { offset, len, done: 0 });
    if events.len() > 0 {
        let before = events.drop_last();
        if before.len() > 0 {
            assert(after_calls(start, before.drop_last()) is More);
        }
        a_transfer_moves_every_byte(offset, len, before);
    }
}

/// A call ends a transfer when it moves the last byte, moves nothing, or fails;
/// an interrupted call is repeated as it was.
pub proof fn how_a_transfer_ends(transfer: Transfer, event: TransferEvent)
    requires
        transfer.done < transfer.len,
        event matches TransferEvent::Moved(n) ==> transfer.done + n <= transfer.len,
    ensures
        advanced(transfer, event) is Done <==> event == TransferEvent::Moved(
            (transfer.len - transfer.done) as usize,
        ),
        advanced(transfer, event) is Stalled <==> event == TransferEvent::Moved(0),
        advanced(transfer, event) is Failed <==> event is Failed,
        event is Interrupted ==> advanced(transfer, event) == TransferStep::More(transfer),
        advanced(transfer, event) matches TransferStep::More(next) ==> next.offset
            == transfer.offset && next.len == transfer.len && next.done == transfer.done
            + match event {
            TransferEvent::Moved(n) => n as int,
            _ => 0,
        },
{
}

} // verus!
