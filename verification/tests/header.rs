use cndb::storage::header::{select_live, victim_slot, Header, HEADER_SIZE, LOG_START};
use cndb::error::CndbError;

fn sample() -> Header {
    Header {
        generation: 7,
        master_ptr: 4096,
        master_len: 512,
        log_end: 4608,
    }
}

#[test]
fn layout_is_exactly_one_slot() {
    assert_eq!(sample().encode().len(), HEADER_SIZE);
    assert_eq!(LOG_START, 128);
}

#[test]
fn roundtrips() {
    let h = sample();
    assert_eq!(Header::decode(&h.encode(), 0).unwrap(), h);
}

#[test]
fn initial_header_points_past_the_header_region() {
    let h = Header::initial();
    assert_eq!(h.log_end, LOG_START);
    assert_eq!(h.master_len, 0);
    assert_eq!(Header::decode(&h.encode(), 0).unwrap(), h);
}

#[test]
fn rejects_bad_magic() {
    let mut buf = sample().encode();
    buf[0] = b'X';
    assert!(matches!(
        Header::decode(&buf, 0),
        Err(CndbError::BadMagic { .. })
    ));
}

#[test]
fn rejects_wrong_version() {
    let mut h = sample().encode();
    h[4..8].copy_from_slice(&0x0002_0000u32.to_le_bytes());
    // Re-checksum so version, not corruption, is what fails.
    h[40..44].fill(0);
    let crc = crc32fast::hash(&h);
    h[40..44].copy_from_slice(&crc.to_le_bytes());
    assert!(matches!(
        Header::decode(&h, 0),
        Err(CndbError::UnsupportedVersion { .. })
    ));
}

#[test]
fn detects_corruption_in_every_field() {
    // Byte 40..44 is the checksum itself; corrupting it must also fail.
    for i in 0..HEADER_SIZE {
        let mut buf = sample().encode();
        buf[i] ^= 0xFF;
        let decoded = Header::decode(&buf, 0);
        assert!(
            decoded.is_err(),
            "corrupting byte {i} went undetected: {decoded:?}"
        );
    }
}

#[test]
fn live_slot_is_the_highest_generation() {
    let old = Header {
        generation: 3,
        ..sample()
    };
    let new = Header {
        generation: 4,
        ..sample()
    };
    let (live, slot) = select_live(&[Some(old), Some(new)]).unwrap();
    assert_eq!((live.generation, slot), (4, 1));

    let (live, slot) = select_live(&[Some(new), Some(old)]).unwrap();
    assert_eq!((live.generation, slot), (4, 0));
}

#[test]
fn live_slot_ignores_a_damaged_partner() {
    let h = sample();
    assert_eq!(select_live(&[None, Some(h)]).unwrap().1, 1);
    assert_eq!(select_live(&[Some(h), None]).unwrap().1, 0);
    assert!(matches!(
        select_live(&[None, None]),
        Err(CndbError::NoValidHeader)
    ));
}

#[test]
fn victim_is_never_the_live_slot() {
    let old = Header {
        generation: 3,
        ..sample()
    };
    let new = Header {
        generation: 4,
        ..sample()
    };
    // Oldest loses.
    assert_eq!(victim_slot(&[Some(old), Some(new)]), 0);
    assert_eq!(victim_slot(&[Some(new), Some(old)]), 1);
    // An empty slot is claimed before a valid one is recycled.
    assert_eq!(victim_slot(&[None, Some(new)]), 0);
    assert_eq!(victim_slot(&[Some(new), None]), 1);
}

#[test]
fn damage_within_one_word_of_a_header_is_found() {
    for word in 0..16 {
        for pattern in [[1u8, 0, 0, 0], [0, 0x80, 0, 1], [0xDE, 0xAD, 0xBE, 0xEF]] {
            let mut buf = sample().encode();
            for (i, mask) in pattern.iter().enumerate() {
                buf[4 * word + i] ^= mask;
            }
            assert!(Header::decode(&buf, 1).is_err(), "word {word} {pattern:?}");
        }
    }
}

#[test]
fn a_header_is_laid_out_little_endian() {
    let buf = sample().encode();
    assert_eq!(buf[0..4], *b"CNDB");
    assert_eq!(buf[4..8], [0, 0, 3, 0]);
    assert_eq!(buf[8..16], 7u64.to_le_bytes());
    assert_eq!(buf[16..24], 4096u64.to_le_bytes());
    assert_eq!(buf[24..32], 512u64.to_le_bytes());
    assert_eq!(buf[32..40], 4608u64.to_le_bytes());
    assert_eq!(buf[44..64], [0u8; 20]);

    let mut blank = buf;
    blank[40..44].fill(0);
    assert_eq!(buf[40..44], crc32fast::hash(&blank).to_le_bytes());
}

#[test]
fn each_fault_has_its_own_error() {
    let mut buf = sample().encode();
    buf[1] = b'X';
    match Header::decode(&buf, 0) {
        Err(CndbError::BadMagic { expected, found }) => {
            assert_eq!(expected, *b"CNDB");
            assert_eq!(found, *b"CXDB");
        }
        other => panic!("unexpected {other:?}"),
    }
    let mut buf = sample().encode();
    buf[50] = 1;
    assert!(matches!(
        Header::decode(&buf, 1),
        Err(CndbError::HeaderChecksum { slot: 1 })
    ));
}

#[test]
fn equal_generations_favour_the_later_slot() {
    let h = sample();
    assert_eq!(select_live(&[Some(h), Some(h)]).unwrap().1, 1);
    assert_eq!(victim_slot(&[Some(h), Some(h)]), 0);
    assert_eq!(victim_slot(&[None, None]), 0);
    assert_eq!(Header::slot_offset(1), 64);
}
