use cndb::error::CndbError;
use cndb::storage::file::ReadRequest;
use cndb::storage::record::{
    decode_frame, encode_frame, read_record_at, verify_payload, DocId, Frame, RecordKind,
    RecordRead, RecordStep, MAX_RECORD_LEN, RECORD_HEADER_SIZE,
};

#[test]
fn frame_roundtrips() {
    let payload = b"the quick brown fox";
    let frame = encode_frame(RecordKind::Blob, payload);
    let decoded = decode_frame(&frame, 128).unwrap();

    assert_eq!(decoded.len, payload.len() as u64);
    assert_eq!(decoded.kind, RecordKind::Blob);
    assert_eq!(
        decoded.total_len(),
        RECORD_HEADER_SIZE + payload.len() as u64
    );
    verify_payload(&decoded, payload, 128).unwrap();
}

#[test]
fn empty_payload_is_legal() {
    let frame = encode_frame(RecordKind::Tombstone, &[]);
    let decoded = decode_frame(&frame, 0).unwrap();
    assert_eq!(decoded.len, 0);
    verify_payload(&decoded, &[], 0).unwrap();
}

#[test]
fn detects_a_single_flipped_bit_in_the_payload() {
    let payload = b"cndb storage core".to_vec();
    let frame = decode_frame(&encode_frame(RecordKind::Blob, &payload), 0).unwrap();

    for i in 0..payload.len() {
        let mut corrupt = payload.clone();
        corrupt[i] ^= 0x01;
        assert!(
            matches!(
                verify_payload(&frame, &corrupt, 0),
                Err(CndbError::RecordChecksum { .. })
            ),
            "flipping a bit in byte {i} went undetected"
        );
    }
}

#[test]
fn every_kind_survives_its_tag() {
    for kind in [
        RecordKind::Node,
        RecordKind::Edge,
        RecordKind::Blob,
        RecordKind::Tombstone,
        RecordKind::MasterIndex,
    ] {
        let frame = decode_frame(&encode_frame(kind, b"x"), 0).unwrap();
        assert_eq!(frame.kind, kind);
    }
}

#[test]
fn rejects_unknown_kinds() {
    // 5..=255 are unallocated and reserved for later record types.
    let mut frame = encode_frame(RecordKind::Blob, b"x");
    frame[4] = 5;
    assert!(matches!(
        decode_frame(&frame, 64),
        Err(CndbError::UnknownRecordKind {
            kind: 5,
            offset: 64
        })
    ));
}

#[test]
fn rejects_absurd_lengths_before_allocating() {
    let mut frame = encode_frame(RecordKind::Blob, b"x");
    frame[0..4].copy_from_slice(&u32::MAX.to_le_bytes());
    assert!(matches!(
        decode_frame(&frame, 0),
        Err(CndbError::RecordTooLarge { .. })
    ));
}

#[test]
fn only_user_data_counts_as_a_document() {
    assert!(RecordKind::Node.is_document());
    assert!(RecordKind::Edge.is_document());
    assert!(RecordKind::Blob.is_document());
    assert!(!RecordKind::Tombstone.is_document());
    assert!(!RecordKind::MasterIndex.is_document());
}

#[test]
fn a_frame_is_laid_out_little_endian() {
    // The checksum of "123456789" is the CRC-32 check value.
    let frame = encode_frame(RecordKind::Tombstone, b"123456789");
    assert_eq!(
        frame,
        [9, 0, 0, 0, 3, 0x26, 0x39, 0xF4, 0xCB],
        "length, kind, checksum"
    );
    assert_eq!(
        decode_frame(&frame, 7).unwrap(),
        Frame {
            len: 9,
            kind: RecordKind::Tombstone,
            crc: 0xCBF4_3926
        }
    );
}

#[test]
fn every_tag_is_a_kind_or_unknown() {
    let kinds = [
        RecordKind::Node,
        RecordKind::Edge,
        RecordKind::Blob,
        RecordKind::Tombstone,
        RecordKind::MasterIndex,
    ];
    for tag in 0..=255u8 {
        match RecordKind::from_tag(tag, 40) {
            Ok(kind) => {
                assert_eq!(kind, kinds[tag as usize]);
                assert_eq!(kind.tag(), tag);
            }
            Err(CndbError::UnknownRecordKind { kind, offset }) => {
                assert!(tag >= 5);
                assert_eq!((kind, offset), (tag, 40));
            }
            Err(other) => panic!("unexpected {other:?}"),
        }
    }
}

#[test]
fn the_longest_payload_is_accepted_and_one_byte_more_is_not() {
    let mut frame = encode_frame(RecordKind::Blob, b"");
    frame[0..4].copy_from_slice(&(MAX_RECORD_LEN as u32).to_le_bytes());
    assert_eq!(decode_frame(&frame, 0).unwrap().len, MAX_RECORD_LEN);
    frame[0..4].copy_from_slice(&(MAX_RECORD_LEN as u32 + 1).to_le_bytes());
    assert!(matches!(
        decode_frame(&frame, 12),
        Err(CndbError::RecordTooLarge {
            offset: 12,
            len: 67_108_865,
            max: 67_108_864
        })
    ));
}

#[test]
fn a_read_asks_for_the_frame_and_then_for_the_payload() {
    let payload = b"payload".to_vec();
    let read = RecordRead::Frame { offset: 128 };
    assert_eq!(
        read.request(),
        ReadRequest {
            offset: 128,
            len: 9
        }
    );
    let frame = encode_frame(RecordKind::Edge, &payload).to_vec();
    let next = match read_record_at(read, frame).unwrap() {
        RecordStep::More(next) => next,
        RecordStep::Done(record) => panic!("too early: {record:?}"),
    };
    assert_eq!(
        next.request(),
        ReadRequest {
            offset: 137,
            len: 7
        }
    );
    match read_record_at(next, payload.clone()).unwrap() {
        RecordStep::Done(record) => {
            assert_eq!(record.kind, RecordKind::Edge);
            assert_eq!(record.into_payload(), payload);
        }
        RecordStep::More(next) => panic!("more wanted: {next:?}"),
    }
    assert!(matches!(
        read_record_at(next, b"damaged".to_vec()),
        Err(CndbError::RecordChecksum { offset: 128 })
    ));
}

#[test]
fn ids_read_as_a_hash_sign_and_a_number() {
    assert_eq!(DocId(42).to_text(), "#42");
    assert_eq!(DocId(0).to_text(), "#0");
    assert_eq!(DocId(u64::MAX).to_text(), "#18446744073709551615");
    assert_eq!(DocId::default(), DocId(0));
}

#[test]
fn damage_within_four_bytes_of_a_payload_is_found() {
    let payload: Vec<u8> = (0..40u8).collect();
    let frame = decode_frame(&encode_frame(RecordKind::Blob, &payload), 16).unwrap();
    for at in 0..payload.len() {
        for pattern in [
            [1u8, 0, 0, 0],
            [0, 0x80, 0, 1],
            [0xDE, 0xAD, 0xBE, 0xEF],
            [0xFF; 4],
        ] {
            let mut damaged = payload.clone();
            for (i, mask) in pattern.iter().enumerate() {
                if at + i < damaged.len() {
                    damaged[at + i] ^= mask;
                }
            }
            if damaged != payload {
                assert!(matches!(
                    verify_payload(&frame, &damaged, 16),
                    Err(CndbError::RecordChecksum { offset: 16 })
                ));
            }
        }
    }
}
