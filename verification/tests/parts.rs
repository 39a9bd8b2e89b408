use cndb::le::{from_le, to_le};
use cndb::storage::pos_io::{Transfer, TransferEvent, TransferStep};
use cndb::text::to_decimal;

#[test]
fn integers_are_written_lowest_byte_first() {
    assert_eq!(to_le(0x0102_0304, 4), [4, 3, 2, 1]);
    assert_eq!(to_le(0x0003_0000, 4), [0, 0, 3, 0]);
    assert_eq!(to_le(u64::MAX, 8), [255; 8]);
    assert_eq!(from_le(&[4, 3, 2, 1]), 0x0102_0304);
    assert_eq!(from_le(&[]), 0);
    for n in [0u64, 1, 255, 256, 65_535, 1 << 40, u64::MAX] {
        assert_eq!(to_le(n, 8), n.to_le_bytes());
        assert_eq!(from_le(&to_le(n, 8)), n);
    }
}

#[test]
fn what_does_not_fit_is_cut_off() {
    assert_eq!(to_le(0x1_0000_0005, 4), [5, 0, 0, 0]);
}

#[test]
fn numbers_are_written_in_decimal() {
    assert_eq!(to_decimal(0), "0");
    assert_eq!(to_decimal(9), "9");
    assert_eq!(to_decimal(10), "10");
    assert_eq!(to_decimal(1_234_567_890), "1234567890");
    assert_eq!(to_decimal(u64::MAX), u64::MAX.to_string());
}

#[test]
fn a_transfer_goes_on_until_every_byte_has_moved() {
    let mut step = Transfer::start(100, 10);
    let mut positions = Vec::new();
    for event in [
        TransferEvent::Moved(4),
        TransferEvent::Interrupted,
        TransferEvent::Moved(1),
        TransferEvent::Moved(5),
    ] {
        match step {
            TransferStep::More(transfer) => {
                positions.push(transfer.position());
                step = transfer.advance(event);
            }
            other => panic!("ended early: {other:?}"),
        }
    }
    assert_eq!(positions, vec![100, 104, 104, 105]);
    assert_eq!(step, TransferStep::Done);
}

#[test]
fn a_transfer_that_makes_no_progress_stalls() {
    let transfer = Transfer {
        offset: 0,
        len: 3,
        done: 2,
    };
    assert_eq!(
        transfer.advance(TransferEvent::Moved(0)),
        TransferStep::Stalled
    );
    assert_eq!(
        transfer.advance(TransferEvent::Failed),
        TransferStep::Failed
    );
    assert_eq!(Transfer::start(5, 0), TransferStep::Done);
}
