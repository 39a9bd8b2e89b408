use cndb::error::CndbError;
use cndb::storage::engine::StorageEngine;
use cndb::storage::file::{FileOp, ReadRequest};
use cndb::storage::header::{Header, HEADER_SIZE, HEADER_SLOTS, LOG_START};
use cndb::storage::log::{verify_log, VerifyStep};
use cndb::storage::protocol::{CommitStage, CommitStep, Load, LoadStep, OpenStep, RecordWrite};
use cndb::storage::record::{
    encode_frame, read_record_at, DocId, Record, RecordKind, RecordRead, RecordStep,
    MAX_RECORD_LEN, RECORD_HEADER_SIZE,
};

/// A file in memory.
#[derive(Debug, Clone, Default)]
struct Disk {
    bytes: Vec<u8>,
}

/// Why an operation on a [`Store`] failed.
#[derive(Debug)]
enum Failure {
    Refused(CndbError),
    ReadPastEnd,
}

impl From<CndbError> for Failure {
    fn from(e: CndbError) -> Self {
        Failure::Refused(e)
    }
}

impl Disk {
    fn write(&mut self, offset: u64, bytes: &[u8]) {
        let start = offset as usize;
        let end = start + bytes.len();
        if self.bytes.len() < end {
            self.bytes.resize(end, 0);
        }
        self.bytes[start..end].copy_from_slice(bytes);
    }

    fn read(&self, request: ReadRequest) -> Result<Vec<u8>, Failure> {
        let end = request.offset.checked_add(request.len);
        match end {
            Some(end) if end <= self.bytes.len() as u64 => {
                Ok(self.bytes[request.offset as usize..end as usize].to_vec())
            }
            _ => Err(Failure::ReadPastEnd),
        }
    }

    fn perform(&mut self, ops: &[FileOp]) {
        for op in ops {
            if let FileOp::Write { offset, bytes } = op {
                self.write(*offset, bytes);
            }
        }
    }
}

/// An engine and the file it writes.
#[derive(Debug)]
struct Store {
    disk: Disk,
    engine: StorageEngine,
}

impl Store {
    fn open(mut disk: Disk) -> Result<Store, Failure> {
        let engine = match StorageEngine::open(disk.bytes.len() as u64)? {
            OpenStep::Create(ops) => {
                disk.perform(&ops);
                StorageEngine::initialize()
            }
            OpenStep::Load(load) => Self::load(&disk, load)?,
        };
        Ok(Store { disk, engine })
    }

    fn load(disk: &Disk, mut load: Load) -> Result<StorageEngine, Failure> {
        loop {
            let reply = disk.read(load.request())?;
            match StorageEngine::load(load, reply)? {
                LoadStep::More(next) => load = next,
                LoadStep::Done(engine) => return Ok(engine),
            }
        }
    }

    fn append(&mut self, kind: RecordKind, payload: &[u8]) -> Result<DocId, Failure> {
        let write: RecordWrite = self.engine.append(kind, payload)?;
        self.disk.perform(&write.ops);
        Ok(self.engine.finish_append(&write))
    }

    fn blob(&mut self, body: &str) -> DocId {
        self.append(RecordKind::Blob, body.as_bytes()).unwrap()
    }

    fn read_record(&self, id: DocId) -> Result<Record, Failure> {
        let mut read: RecordRead = self.engine.read_record(id)?;
        loop {
            let reply = self.disk.read(read.request())?;
            match read_record_at(read, reply)? {
                RecordStep::More(next) => read = next,
                RecordStep::Done(record) => return Ok(record),
            }
        }
    }

    fn read(&self, id: DocId) -> Result<Vec<u8>, Failure> {
        Ok(self.read_record(id)?.into_payload())
    }

    fn tombstone(&mut self, id: DocId) -> Result<(), Failure> {
        let write = self.engine.tombstone(id)?;
        self.disk.perform(&write.ops);
        self.engine.finish_tombstone(id, &write);
        Ok(())
    }

    fn commit(&mut self) -> Result<(), Failure> {
        let mut stage = CommitStage::Begin;
        loop {
            match self.engine.commit(stage)? {
                CommitStep::Act { ops, then } => {
                    self.disk.perform(&ops);
                    stage = then;
                }
                CommitStep::Done => return Ok(()),
            }
        }
    }

    fn verify(&self) -> Result<usize, Failure> {
        let mut step = self.engine.verify()?;
        loop {
            match step {
                VerifyStep::Done(count) => return Ok(count),
                VerifyStep::More(run) => {
                    let reply = self.disk.read(run.read.request())?;
                    step = verify_log(run, reply)?;
                }
            }
        }
    }

    fn len(&self) -> usize {
        self.engine.len()
    }

    fn generation(&self) -> u64 {
        self.engine.generation()
    }

    fn live_slot(&self) -> usize {
        self.engine.live_slot()
    }
}

#[test]
fn a_new_database_starts_empty_and_valid() {
    let store = Store::open(Disk::default()).unwrap();

    assert_eq!(store.generation(), 0);
    assert!(store.engine.is_empty());
    assert!(!store.engine.is_dirty());
    assert_eq!(store.verify().unwrap(), 0);
    assert_eq!(store.disk.bytes.len() as u64, LOG_START);
}

#[test]
fn appends_are_readable_before_they_are_committed() {
    let mut store = Store::open(Disk::default()).unwrap();

    let id = store.blob("hello");
    assert!(store.engine.is_dirty());
    assert_eq!(store.read(id).unwrap(), b"hello");
    assert_eq!(store.len(), 1);
}

#[test]
fn ids_are_unique_and_documents_do_not_collide() {
    let mut store = Store::open(Disk::default()).unwrap();

    let ids: Vec<DocId> = (0..64).map(|i| store.blob(&format!("doc-{i}"))).collect();
    store.commit().unwrap();

    let unique: std::collections::HashSet<&DocId> = ids.iter().collect();
    assert_eq!(unique.len(), ids.len());
    for (i, id) in ids.iter().enumerate() {
        assert_eq!(store.read(*id).unwrap(), format!("doc-{i}").as_bytes());
    }
}

#[test]
fn data_survives_a_reopen() {
    let (disk, id) = {
        let mut store = Store::open(Disk::default()).unwrap();
        let id = store.blob("durable");
        store.commit().unwrap();
        (store.disk, id)
    };

    let store = Store::open(disk).unwrap();
    assert_eq!(store.generation(), 1);
    assert_eq!(store.read(id).unwrap(), b"durable");
    assert_eq!(store.len(), 1);
}

#[test]
fn uncommitted_appends_are_lost_on_reopen() {
    let (disk, kept, dropped) = {
        let mut store = Store::open(Disk::default()).unwrap();
        let kept = store.blob("committed");
        store.commit().unwrap();
        // Simulates a crash: written and flushed, but never committed.
        let dropped = store.blob("in flight");
        (store.disk, kept, dropped)
    };

    let store = Store::open(disk).unwrap();
    assert_eq!(store.read(kept).unwrap(), b"committed");
    assert!(matches!(
        store.read(dropped),
        Err(Failure::Refused(CndbError::NotFound(_)))
    ));
    assert_eq!(store.len(), 1);
}

#[test]
fn an_uncommitted_append_is_overwritten_not_orphaned() {
    let disk = {
        let mut store = Store::open(Disk::default()).unwrap();
        store.blob("committed");
        store.commit().unwrap();
        store.blob("this text must not survive");
        store.disk
    };

    let mut store = Store::open(disk).unwrap();
    let replacement = store.blob("second");
    store.commit().unwrap();

    // The lost record's space was reused, and the log still scans clean.
    assert_eq!(store.read(replacement).unwrap(), b"second");
    store.verify().unwrap();
}

#[test]
fn ids_do_not_restart_after_a_reopen() {
    let (disk, first) = {
        let mut store = Store::open(Disk::default()).unwrap();
        let id = store.blob("a");
        store.commit().unwrap();
        (store.disk, id)
    };

    let mut store = Store::open(disk).unwrap();
    let second = store.blob("b");
    assert!(second > first, "{second:?} should follow {first:?}");
    assert_eq!(store.read(first).unwrap(), b"a");
}

#[test]
fn commits_alternate_header_slots() {
    let mut store = Store::open(Disk::default()).unwrap();
    assert_eq!(store.live_slot(), 0, "generation 0 is written to slot 0");

    let mut seen = Vec::new();
    for i in 0..6 {
        store.blob(&format!("v{i}"));
        store.commit().unwrap();
        seen.push(store.live_slot());
        assert_eq!(store.generation(), i + 1);
    }
    assert_eq!(seen, vec![1, 0, 1, 0, 1, 0]);
}

#[test]
fn committing_nothing_does_nothing() {
    let mut store = Store::open(Disk::default()).unwrap();
    store.blob("x");
    store.commit().unwrap();

    let before = store.engine.stats();
    let bytes = store.disk.bytes.clone();
    store.commit().unwrap();
    store.commit().unwrap();
    assert_eq!(
        store.engine.stats(),
        before,
        "an empty commit must not burn a generation"
    );
    assert_eq!(store.disk.bytes, bytes);
}

#[test]
fn a_torn_header_falls_back_to_the_previous_generation() {
    let (mut disk, first, second) = {
        let mut store = Store::open(Disk::default()).unwrap();
        let first = store.blob("generation one");
        store.commit().unwrap();
        let second = store.blob("generation two");
        store.commit().unwrap();
        assert_eq!(store.generation(), 2);
        (store.disk, first, second)
    };

    // Tear the live slot, exactly as a crash mid-header-write would.
    let live = Store::open(disk.clone()).unwrap().live_slot();
    disk.write(Header::slot_offset(live), &[0xAB; HEADER_SIZE]);

    // The older slot still describes a complete, consistent database.
    let store = Store::open(disk).unwrap();
    assert_eq!(store.generation(), 1);
    assert_eq!(store.read(first).unwrap(), b"generation one");
    assert!(matches!(
        store.read(second),
        Err(Failure::Refused(CndbError::NotFound(_)))
    ));
    store.verify().unwrap();
}

#[test]
fn recovery_still_works_after_writing_over_the_torn_slot() {
    let mut disk = {
        let mut store = Store::open(Disk::default()).unwrap();
        store.blob("one");
        store.commit().unwrap();
        store.blob("two");
        store.commit().unwrap();
        store.disk
    };

    let live = Store::open(disk.clone()).unwrap().live_slot();
    disk.write(Header::slot_offset(live), &[0u8; HEADER_SIZE]);

    // Recover, then commit again: the freed slot is reclaimed first.
    let mut store = Store::open(disk).unwrap();
    assert_eq!(store.generation(), 1);
    let id = store.blob("three");
    store.commit().unwrap();
    assert_eq!(store.generation(), 2);
    assert_eq!(store.live_slot(), live);

    let store = Store::open(store.disk).unwrap();
    assert_eq!(store.read(id).unwrap(), b"three");
}

#[test]
fn both_headers_destroyed_is_reported_clearly() {
    let mut disk = {
        let mut store = Store::open(Disk::default()).unwrap();
        store.blob("x");
        store.commit().unwrap();
        store.disk
    };
    disk.write(0, &[0x7Fu8; HEADER_SIZE * HEADER_SLOTS]);
    assert!(matches!(
        Store::open(disk),
        Err(Failure::Refused(CndbError::BadMagic { .. }))
    ));
}

#[test]
fn a_foreign_file_is_rejected_as_not_a_database() {
    let disk = Disk {
        bytes: vec![b'z'; 4096],
    };
    assert!(matches!(
        Store::open(disk),
        Err(Failure::Refused(CndbError::BadMagic { .. }))
    ));
}

#[test]
fn a_file_too_short_to_hold_headers_is_rejected() {
    let disk = Disk {
        bytes: b"CNDB".to_vec(),
    };
    assert!(matches!(
        Store::open(disk),
        Err(Failure::Refused(CndbError::UnexpectedEof { .. }))
    ));
}

#[test]
fn a_truncated_file_is_rejected_rather_than_half_read() {
    let mut disk = {
        let mut store = Store::open(Disk::default()).unwrap();
        store.blob("a document long enough to matter");
        store.commit().unwrap();
        store.disk
    };

    let len = disk.bytes.len();
    disk.bytes.truncate(len - 16);

    assert!(matches!(
        Store::open(disk),
        Err(Failure::Refused(CndbError::UnexpectedEof { .. }))
    ));
}

#[test]
fn corruption_in_the_payload_is_caught_on_read() {
    let mut store = Store::open(Disk::default()).unwrap();
    let id = store.blob("the payload we will damage");
    store.commit().unwrap();
    let offset = store.engine.index().offset_of(id).unwrap();
    let mut disk = store.disk;

    disk.write(offset + RECORD_HEADER_SIZE + 4, b"X");

    let store = Store::open(disk).unwrap();
    assert!(matches!(
        store.read(id),
        Err(Failure::Refused(CndbError::RecordChecksum { .. }))
    ));
    assert!(matches!(
        store.verify(),
        Err(Failure::Refused(CndbError::RecordChecksum { .. }))
    ));
}

#[test]
fn tombstones_hide_documents_and_survive_a_reopen() {
    let (disk, kept, gone) = {
        let mut store = Store::open(Disk::default()).unwrap();
        let kept = store.blob("keep me");
        let gone = store.blob("delete me");
        store.tombstone(gone).unwrap();
        store.commit().unwrap();

        assert_eq!(store.len(), 1);
        assert!(matches!(
            store.read(gone),
            Err(Failure::Refused(CndbError::Deleted(_)))
        ));
        (store.disk, kept, gone)
    };

    let store = Store::open(disk).unwrap();
    assert_eq!(store.len(), 1);
    assert_eq!(store.read(kept).unwrap(), b"keep me");
    assert!(matches!(
        store.read(gone),
        Err(Failure::Refused(CndbError::Deleted(_)))
    ));
}

#[test]
fn deleting_twice_or_deleting_nothing_is_an_error() {
    let mut store = Store::open(Disk::default()).unwrap();
    let id = store.blob("x");

    store.tombstone(id).unwrap();
    assert!(matches!(
        store.tombstone(id),
        Err(Failure::Refused(CndbError::Deleted(_)))
    ));
    assert!(matches!(
        store.tombstone(DocId(9999)),
        Err(Failure::Refused(CndbError::NotFound(_)))
    ));
}

#[test]
fn the_master_index_does_not_disturb_the_record_stream() {
    let mut store = Store::open(Disk::default()).unwrap();

    // Commit repeatedly so several superseded master records end up sitting
    // between the document records.
    let mut ids = Vec::new();
    for i in 0..5 {
        ids.push(store.blob(&format!("round-{i}")));
        store.commit().unwrap();
    }

    // 5 documents + 5 master records, all framed and checksummed.
    assert_eq!(store.verify().unwrap(), 10);
    for (i, id) in ids.iter().enumerate() {
        assert_eq!(store.read(*id).unwrap(), format!("round-{i}").as_bytes());
    }

    let store = Store::open(store.disk).unwrap();
    assert_eq!(store.generation(), 5);
    assert_eq!(store.len(), 5);
}

#[test]
fn every_record_kind_roundtrips() {
    let mut store = Store::open(Disk::default()).unwrap();

    let node = store.append(RecordKind::Node, b"a node").unwrap();
    let edge = store.append(RecordKind::Edge, b"an edge").unwrap();
    let empty = store.append(RecordKind::Blob, b"").unwrap();
    store.commit().unwrap();

    let store = Store::open(store.disk).unwrap();
    assert_eq!(store.read_record(node).unwrap().kind, RecordKind::Node);
    assert_eq!(store.read_record(edge).unwrap().kind, RecordKind::Edge);
    assert_eq!(store.read(empty).unwrap(), b"");
}

#[test]
fn large_payloads_roundtrip() {
    let mut store = Store::open(Disk::default()).unwrap();

    let big: Vec<u8> = (0..4 * 1024 * 1024).map(|i| (i % 251) as u8).collect();
    let id = store.append(RecordKind::Blob, &big).unwrap();
    store.commit().unwrap();

    let store = Store::open(store.disk).unwrap();
    assert_eq!(store.read(id).unwrap(), big);
}

#[test]
fn oversized_payloads_are_refused() {
    let mut store = Store::open(Disk::default()).unwrap();
    let too_big = vec![0u8; (MAX_RECORD_LEN + 1) as usize];
    assert!(matches!(
        store.append(RecordKind::Blob, &too_big),
        Err(Failure::Refused(CndbError::RecordTooLarge { .. }))
    ));
}

#[test]
fn many_commits_keep_the_database_consistent() {
    let mut disk = Disk::default();
    let mut ids: Vec<DocId> = Vec::new();

    for round in 0..25 {
        let mut store = Store::open(disk).unwrap();
        ids.push(store.blob(&format!("round-{round}")));
        if round % 4 == 0 {
            store.tombstone(ids[0]).ok();
        }
        store.commit().unwrap();
        store.verify().unwrap();
        disk = store.disk;
    }

    let store = Store::open(disk).unwrap();
    assert_eq!(store.generation(), 25);
    assert_eq!(store.len(), 24);
    assert_eq!(store.engine.live_ids().len(), 24);
}

#[test]
fn a_commit_flushes_in_order() {
    let mut store = Store::open(Disk::default()).unwrap();
    store.blob("x");

    let mut log: Vec<String> = Vec::new();
    let mut stage = CommitStage::Begin;
    loop {
        match store.engine.commit(stage).unwrap() {
            CommitStep::Act { ops, then } => {
                store.disk.perform(&ops);
                for op in &ops {
                    log.push(match op {
                        FileOp::Write { offset, bytes } => format!("{offset}+{}", bytes.len()),
                        FileOp::SyncData => String::from("flush"),
                        FileOp::SyncAll => String::from("flush all"),
                    });
                }
                stage = then;
            }
            CommitStep::Done => break,
        }
    }
    // One document of one byte at 128, then an index of one entry.
    assert_eq!(
        log,
        ["flush", "138+9", "147+40", "flush", "64+64", "flush"]
    );
    let stats = store.engine.stats();
    assert_eq!((stats.committed_len, stats.pending_len), (187, 187));
    assert_eq!((stats.live_docs, stats.dead_docs), (1, 0));
}

#[test]
fn a_new_database_is_laid_down_in_one_write() {
    match StorageEngine::open(0).unwrap() {
        OpenStep::Create(ops) => match ops.as_slice() {
            [FileOp::Write { offset, bytes }, FileOp::SyncAll] => {
                assert_eq!(*offset, 0);
                assert_eq!(bytes[..64], Header::initial().encode());
                assert_eq!(bytes[64..], [0u8; 64]);
            }
            other => panic!("unexpected {other:?}"),
        },
        OpenStep::Load(load) => panic!("unexpected {load:?}"),
    }
}

#[test]
fn a_header_that_points_at_another_record_is_refused() {
    let mut store = Store::open(Disk::default()).unwrap();
    store.blob("not an index");
    store.commit().unwrap();
    let end = store.engine.stats().committed_len;
    let mut disk = store.disk;

    let crooked = Header {
        generation: 9,
        master_ptr: LOG_START,
        master_len: 12,
        log_end: end,
    };
    disk.write(Header::slot_offset(0), &crooked.encode());
    match Store::open(disk) {
        Err(Failure::Refused(CndbError::CorruptIndex(text))) => {
            assert_eq!(text, "record at 128 is Blob, not a master index")
        }
        other => panic!("unexpected {other:?}"),
    }
}

#[test]
fn a_log_that_overruns_its_end_is_reported() {
    let mut store = Store::open(Disk::default()).unwrap();
    store.blob("twelve bytes");
    store.commit().unwrap();
    let mut disk = store.disk;

    // A header that ends the log in the middle of its first record.
    let crooked = Header {
        generation: 9,
        master_ptr: 0,
        master_len: 0,
        log_end: LOG_START + 10,
    };
    disk.write(Header::slot_offset(0), &crooked.encode());
    let store = Store::open(disk).unwrap();
    match store.verify() {
        Err(Failure::Refused(CndbError::CorruptIndex(text))) => {
            assert_eq!(text, "log ends at 149, header says 138")
        }
        other => panic!("unexpected {other:?}"),
    }
}

#[test]
fn an_index_that_cannot_be_decoded_is_refused() {
    let mut store = Store::open(Disk::default()).unwrap();
    store.blob("x");
    store.commit().unwrap();
    let end = store.engine.stats().committed_len;
    let mut disk = store.disk;

    let junk = b"junk".to_vec();
    disk.write(end, &encode_frame(RecordKind::MasterIndex, &junk));
    disk.write(end + RECORD_HEADER_SIZE, &junk);
    let crooked = Header {
        generation: 9,
        master_ptr: end,
        master_len: 4,
        log_end: end + RECORD_HEADER_SIZE + 4,
    };
    disk.write(Header::slot_offset(0), &crooked.encode());
    assert!(matches!(
        Store::open(disk),
        Err(Failure::Refused(CndbError::CorruptIndex(_)))
    ));
}

#[test]
fn a_header_that_points_past_the_file_is_a_failed_read() {
    let mut store = Store::open(Disk::default()).unwrap();
    store.blob("x");
    store.commit().unwrap();
    let end = store.engine.stats().committed_len;
    let mut disk = store.disk;

    let crooked = Header {
        generation: 9,
        master_ptr: u64::MAX - 3,
        master_len: 4,
        log_end: end,
    };
    disk.write(Header::slot_offset(0), &crooked.encode());
    assert!(matches!(Store::open(disk), Err(Failure::ReadPastEnd)));
}

#[test]
fn when_both_slots_fail_the_first_one_is_reported() {
    let mut disk = Disk {
        bytes: vec![0u8; 128],
    };
    let mut damaged = Header::initial().encode();
    damaged[20] ^= 1;
    disk.write(0, &damaged);
    assert!(matches!(
        Store::open(disk),
        Err(Failure::Refused(CndbError::HeaderChecksum { slot: 0 }))
    ));
}

#[test]
fn a_crash_at_any_point_of_a_commit_is_recoverable() {
    let mut store = Store::open(Disk::default()).unwrap();
    let first = store.blob("first");
    store.commit().unwrap();
    let second = store.blob("second");
    let before = store.disk.clone();

    // Collect the writes of the second commit.
    let mut writes: Vec<(u64, Vec<u8>)> = Vec::new();
    let mut stage = CommitStage::Begin;
    loop {
        match store.engine.commit(stage).unwrap() {
            CommitStep::Act { ops, then } => {
                for op in ops {
                    if let FileOp::Write { offset, bytes } = op {
                        writes.push((offset, bytes));
                    }
                }
                stage = then;
            }
            CommitStep::Done => break,
        }
    }
    assert_eq!(writes.len(), 3);

    // Stop after every byte of every write.
    let mut disk = before;
    let mut new = 0;
    for (offset, bytes) in &writes {
        for len in 0..=bytes.len() {
            let mut torn = disk.clone();
            torn.write(*offset, &bytes[..len]);
            let found = Store::open(torn).unwrap();
            found.verify().unwrap();
            assert_eq!(found.read(first).unwrap(), b"first");
            if found.generation() == 2 {
                new += 1;
                assert_eq!(found.read(second).unwrap(), b"second");
            } else {
                assert_eq!(found.generation(), 1);
                assert!(matches!(
                    found.read(second),
                    Err(Failure::Refused(CndbError::NotFound(_)))
                ));
            }
        }
        disk.write(*offset, bytes);
    }
    assert!(new >= 1, "a finished commit must be found");
}

#[test]
fn a_commit_that_fails_half_way_can_be_repeated() {
    let mut store = Store::open(Disk::default()).unwrap();
    let id = store.blob("kept");

    // The index is written, and then the flush before the header fails.
    let mut stage = CommitStage::Begin;
    for _ in 0..2 {
        match store.engine.commit(stage).unwrap() {
            CommitStep::Act { ops, then } => {
                store.disk.perform(&ops);
                stage = then;
            }
            CommitStep::Done => panic!("too early"),
        }
    }
    store.engine.commit(stage).unwrap();
    assert!(store.engine.is_dirty());
    assert_eq!(store.generation(), 0);
    assert_eq!(store.read(id).unwrap(), b"kept");

    store.commit().unwrap();
    assert_eq!(store.generation(), 1);
    // One document and two indexes, the first of them superseded.
    assert_eq!(store.verify().unwrap(), 3);
    assert_eq!(Store::open(store.disk).unwrap().read(id).unwrap(), b"kept");
}

#[test]
fn a_write_that_fails_leaves_the_engine_as_it_was() {
    let mut store = Store::open(Disk::default()).unwrap();
    let id = store.blob("safe");
    let before = store.engine.stats();

    let write = store.engine.append(RecordKind::Blob, b"lost").unwrap();
    // Only the frame reaches the file, and the engine is not told.
    store.disk.perform(&write.ops[..1]);
    assert_eq!(store.engine.stats(), before);
    assert_eq!(store.read(id).unwrap(), b"safe");

    let next = store.blob("next");
    assert_eq!(store.read(next).unwrap(), b"next");
    store.commit().unwrap();
    assert_eq!(store.verify().unwrap(), 3);
}

#[test]
fn a_header_write_that_fails_leaves_the_engine_as_it_was() {
    let mut store = Store::open(Disk::default()).unwrap();
    let first = store.blob("first");
    store.commit().unwrap();
    let second = store.blob("second");

    // The header slot is torn, and the engine is not told.
    let mut stage = CommitStage::Begin;
    for _ in 0..2 {
        match store.engine.commit(stage).unwrap() {
            CommitStep::Act { ops, then } => {
                store.disk.perform(&ops);
                stage = then;
            }
            CommitStep::Done => panic!("too early"),
        }
    }
    store.engine.commit(stage).unwrap();
    store.disk.write(Header::slot_offset(0), b"torn");

    assert_eq!(store.generation(), 1);
    assert_eq!(store.live_slot(), 1);
    assert_eq!(store.read(second).unwrap(), b"second");
    store.commit().unwrap();
    let store = Store::open(store.disk).unwrap();
    assert_eq!(store.generation(), 2);
    assert_eq!(store.live_slot(), 0);
    assert_eq!(store.read(first).unwrap(), b"first");
    assert_eq!(store.read(second).unwrap(), b"second");
}

#[test]
fn the_file_grows_only_where_the_log_outgrows_it() {
    let mut store = Store::open(Disk::default()).unwrap();
    store.blob("kept");
    store.commit().unwrap();
    let committed = store.engine.stats().committed_len;
    store.blob("a long text that nobody commits");
    let len = store.disk.bytes.len();

    let mut store = Store::open(store.disk).unwrap();
    assert_eq!(store.engine.stats().pending_len, committed);
    store.blob("short");
    assert_eq!(store.disk.bytes.len(), len);
    assert_eq!(store.engine.stats().pending_len, committed + 9 + 5);
}

/// Carry a commit out up to and including its header write, and leave it there.
fn abandon_after_header(store: &mut Store) {
    let mut stage = CommitStage::Begin;
    for _ in 0..3 {
        match store.engine.commit(stage).unwrap() {
            CommitStep::Act { ops, then } => {
                store.disk.perform(&ops);
                stage = then;
            }
            CommitStep::Done => panic!("too early"),
        }
    }
}

#[test]
fn a_crash_in_a_repeated_commit_is_recoverable() {
    let mut store = Store::open(Disk::default()).unwrap();
    let first = store.blob("first");
    store.commit().unwrap();
    let second = store.blob("second");
    // The header gets to the file, but the flush behind it fails.
    abandon_after_header(&mut store);
    assert_eq!((store.generation(), store.live_slot()), (1, 1));
    assert_eq!(Store::open(store.disk.clone()).unwrap().generation(), 2);

    let third = store.blob("third");
    let before = store.disk.clone();
    let mut writes: Vec<(u64, Vec<u8>)> = Vec::new();
    let mut stage = CommitStage::Begin;
    loop {
        match store.engine.commit(stage).unwrap() {
            CommitStep::Act { ops, then } => {
                for op in ops {
                    if let FileOp::Write { offset, bytes } = op {
                        writes.push((offset, bytes));
                    }
                }
                stage = then;
            }
            CommitStep::Done => break,
        }
    }

    let mut disk = before;
    let (mut last, mut earlier, mut new) = (0, 0, 0);
    for (offset, bytes) in &writes {
        for len in 0..=bytes.len() {
            let mut torn = disk.clone();
            torn.write(*offset, &bytes[..len]);
            let found = Store::open(torn).unwrap();
            found.verify().unwrap();
            assert_eq!(found.read(first).unwrap(), b"first");
            match found.len() {
                1 => {
                    assert_eq!(found.generation(), 1);
                    last += 1;
                }
                2 => {
                    assert_eq!(found.generation(), 2);
                    assert_eq!(found.read(second).unwrap(), b"second");
                    earlier += 1;
                }
                _ => {
                    assert_eq!(found.generation(), 2);
                    assert_eq!(found.read(second).unwrap(), b"second");
                    assert_eq!(found.read(third).unwrap(), b"third");
                    new += 1;
                }
            }
        }
        disk.write(*offset, bytes);
    }
    // Slot invalid, slot as it was, slot with the new header.
    assert!(last > 0 && earlier > 0 && new > 0);
}

#[test]
fn waiting_for_a_commit_and_running_ahead_are_the_same() {
    let mut store = Store::open(Disk::default()).unwrap();
    let ahead = |store: &Store| {
        let stats = store.engine.stats();
        stats.committed_len < stats.pending_len
    };
    assert_eq!(store.engine.is_dirty(), ahead(&store));
    let id = store.append(RecordKind::Blob, b"").unwrap();
    assert!(store.engine.is_dirty() && ahead(&store));
    store.commit().unwrap();
    assert!(!store.engine.is_dirty() && !ahead(&store));
    store.tombstone(id).unwrap();
    assert!(store.engine.is_dirty() && ahead(&store));
    let store = Store::open(store.disk).unwrap();
    assert!(!store.engine.is_dirty() && !ahead(&store));
}

#[test]
fn a_walk_counts_documents_deletions_and_commits() {
    let mut store = Store::open(Disk::default()).unwrap();
    let mut kept: Vec<(DocId, String)> = Vec::new();
    for round in 0..8u64 {
        for i in 0..3 {
            let text = format!("{round}/{i}");
            let id = store.blob(&text);
            kept.push((id, text));
        }
        if round % 2 == 1 {
            let (gone, _) = kept.remove(0);
            store.tombstone(gone).unwrap();
        }
        store.commit().unwrap();
        if round % 3 == 0 {
            // Lost again, and so not counted.
            store.blob("in flight");
            store = Store::open(store.disk).unwrap();
        }
        let stats = store.engine.stats();
        assert_eq!(stats.generation, round + 1);
        assert_eq!(
            store.verify().unwrap() as u64,
            (stats.live_docs + 2 * stats.dead_docs) as u64 + stats.generation
        );
        for (id, text) in &kept {
            assert_eq!(store.read(*id).unwrap(), text.as_bytes());
        }
    }
    // 24 documents, 4 tombstones and 8 indexes.
    assert_eq!(store.verify().unwrap(), 36);
}
