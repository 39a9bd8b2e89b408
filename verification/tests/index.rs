use cndb::error::CndbError;
use cndb::storage::index::MasterIndex;
use cndb::storage::record::DocId;

#[test]
fn ids_start_at_one_and_never_repeat() {
    let mut idx = MasterIndex::default();
    assert_eq!(idx.allocate_id(), DocId(1));
    assert_eq!(idx.allocate_id(), DocId(2));

    idx.insert(DocId(1), 128);
    idx.dead.insert(1);
    // Deleting does not free the id for reuse.
    assert_eq!(idx.allocate_id(), DocId(3));
}

#[test]
fn tombstones_hide_documents_without_losing_the_offset() {
    let mut idx = MasterIndex::default();
    idx.insert(DocId(1), 128);
    assert_eq!(idx.offset_of(DocId(1)), Some(128));
    assert!(idx.is_live(DocId(1)));

    idx.dead.insert(1);
    assert_eq!(idx.offset_of(DocId(1)), None);
    assert!(!idx.is_live(DocId(1)));
    // The offset survives so compaction can still find the record.
    assert_eq!(idx.offsets.get(&1), Some(&128));
}

#[test]
fn counts_and_ratio_track_tombstones() {
    fn ratio(idx: &MasterIndex) -> f64 {
        let (dead, stored) = idx.dead_share();
        dead as f64 / stored as f64
    }

    let mut idx = MasterIndex::default();
    assert_eq!(ratio(&idx), 0.0, "empty index must not divide by zero");

    for i in 1..=4u64 {
        idx.insert(DocId(i), i * 100);
    }
    assert_eq!((idx.live_count(), idx.dead_count()), (4, 0));

    idx.dead.insert(1);
    assert_eq!((idx.live_count(), idx.dead_count()), (3, 1));
    assert_eq!(ratio(&idx), 0.25);

    let mut live: Vec<u64> = idx.live_ids().into_iter().map(|d| d.0).collect();
    live.sort_unstable();
    assert_eq!(live, vec![2, 3, 4]);
}

#[test]
fn roundtrips_through_bincode() {
    let mut idx = MasterIndex::default();
    for i in 1..=32u64 {
        let id = idx.allocate_id();
        idx.insert(id, i * 137);
    }
    idx.dead.insert(3);

    assert_eq!(MasterIndex::decode(&idx.encode().unwrap()).unwrap(), idx);
}

#[test]
fn rejects_a_truncated_blob() {
    let idx = MasterIndex::default();
    let bytes = idx.encode().unwrap();
    assert!(matches!(
        MasterIndex::decode(&bytes[..bytes.len() / 2]),
        Err(CndbError::CorruptIndex(_))
    ));
}

#[test]
fn the_stored_index_has_a_known_length_and_layout() {
    let mut idx = MasterIndex::default();
    let id = idx.allocate_id();
    idx.insert(id, 128);
    idx.dead.insert(id.0);

    let mut expected = Vec::new();
    for n in [1u64, 1, 128, 1, 1, 2] {
        expected.extend_from_slice(&n.to_le_bytes());
    }
    let bytes = idx.encode().unwrap();
    assert_eq!(bytes.len(), 24 + 16 + 8);
    assert_eq!(bytes, expected);
    assert_eq!(MasterIndex::default().encode().unwrap().len(), 24);
}

#[test]
fn the_text_of_a_refusal_is_kept() {
    match MasterIndex::from_parts(Err(String::from("no good"))) {
        Err(CndbError::CorruptIndex(text)) => assert_eq!(text, "no good"),
        other => panic!("unexpected {other:?}"),
    }
}

#[test]
fn a_copy_is_equal_and_independent() {
    let mut idx = MasterIndex::default();
    for _ in 0..5 {
        let id = idx.allocate_id();
        idx.insert(id, 1000 + id.0);
    }
    idx.dead.insert(2);
    idx.dead.insert(4);

    let copy = idx.clone();
    assert_eq!(copy, idx);
    idx.dead.insert(5);
    assert_ne!(copy, idx);
    assert_eq!(copy.live_count(), 3);
    assert_eq!(copy.dead_share(), (2, 5));
}
