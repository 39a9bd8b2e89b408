use cndb::{Cndb, CndbError, DocId, StorageEngine, FORMAT_VERSION};
use cndb::storage::file::{FileOp, ReadRequest};
use cndb::storage::log::{verify_log, VerifyStep};
use cndb::storage::protocol::{CommitStage, CommitStep, LoadStep, OpenStep};
use cndb::storage::record::{read_record_at, RecordStep};
use serde_json::Value;

/// A file in memory.
#[derive(Debug, Clone, Default)]
struct Disk {
    bytes: Vec<u8>,
}

/// Why an operation on a [`Db`] failed.
#[derive(Debug)]
enum Failure {
    Refused(CndbError),
    ReadPastEnd,
}

impl From<CndbError> for Failure {
    fn from(e: CndbError) -> Self {
        Failure::Refused(e)
    }
}

impl Disk {
    fn write(&mut self, offset: u64, bytes: &[u8]) {
        let start = offset as usize;
        let end = start + bytes.len();
        if self.bytes.len() < end {
            self.bytes.resize(end, 0);
        }
        self.bytes[start..end].copy_from_slice(bytes);
    }

    fn read(&self, request: ReadRequest) -> Result<Vec<u8>, Failure> {
        let end = request.offset.checked_add(request.len);
        match end {
            Some(end) if end <= self.bytes.len() as u64 => {
                Ok(self.bytes[request.offset as usize..end as usize].to_vec())
            }
            _ => Err(Failure::ReadPastEnd),
        }
    }

    fn perform(&mut self, ops: &[FileOp]) {
        for op in ops {
            if let FileOp::Write { offset, bytes } = op {
                self.write(*offset, bytes);
            }
        }
    }
}

/// A database and the file it lives in.
#[derive(Debug)]
struct Db {
    disk: Disk,
    db: Cndb,
}

impl Db {
    fn open(mut disk: Disk) -> Result<Db, Failure> {
        let store = match Cndb::open(disk.bytes.len() as u64)? {
            OpenStep::Create(ops) => {
                disk.perform(&ops);
                StorageEngine::initialize()
            }
            OpenStep::Load(mut load) => loop {
                let reply = disk.read(load.request())?;
                match StorageEngine::load(load, reply)? {
                    LoadStep::More(next) => load = next,
                    LoadStep::Done(engine) => break engine,
                }
            },
        };
        Ok(Db {
            disk,
            db: Cndb::over(store),
        })
    }

    fn insert(&mut self, doc: &Value) -> Result<DocId, Failure> {
        let write = self.db.insert(doc)?;
        self.disk.perform(&write.ops);
        Ok(self.db.finish_insert(&write))
    }

    fn get(&self, id: DocId) -> Result<Value, Failure> {
        let mut read = self.db.get(id)?;
        loop {
            let reply = self.disk.read(read.request())?;
            match read_record_at(read, reply)? {
                RecordStep::More(next) => read = next,
                RecordStep::Done(record) => return Ok(Cndb::finish_get(record)?),
            }
        }
    }

    fn delete(&mut self, id: DocId) -> Result<(), Failure> {
        let write = self.db.delete(id)?;
        self.disk.perform(&write.ops);
        self.db.finish_delete(id, &write);
        Ok(())
    }

    fn commit(&mut self) -> Result<(), Failure> {
        let mut stage = CommitStage::Begin;
        loop {
            match self.db.commit(stage)? {
                CommitStep::Act { ops, then } => {
                    self.disk.perform(&ops);
                    stage = then;
                }
                CommitStep::Done => return Ok(()),
            }
        }
    }

    fn verify(&self) -> Result<usize, Failure> {
        let mut step = self.db.verify()?;
        loop {
            match step {
                VerifyStep::Done(count) => return Ok(count),
                VerifyStep::More(run) => {
                    let reply = self.disk.read(run.read.request())?;
                    step = verify_log(run, reply)?;
                }
            }
        }
    }
}

fn json(text: &str) -> Value {
    serde_json::from_str(text).unwrap()
}

/// Build a database with several committed generations and some deletions.
/// Returns it with the ids expected to be readable afterwards.
fn populate() -> (Disk, Vec<DocId>) {
    let mut db = Db::open(Disk::default()).unwrap();
    let mut live = Vec::new();

    for round in 0..6 {
        for i in 0..4 {
            let id = db
                .insert(&json(&format!(
                    r#"{{
                        "round": {round},
                        "kind": "Function",
                        "qualified_name": "cndb::round{round}::symbol_{i}",
                        "span": {{ "start_line": {}, "end_line": {} }}
                    }}"#,
                    round * 10 + i,
                    round * 10 + i + 5
                )))
                .unwrap();
            live.push(id);
        }
        // Delete one document from an earlier round, so tombstones are part of
        // the committed state rather than an untested edge case.
        if round > 0 {
            let victim = live.remove(0);
            db.delete(victim).unwrap();
        }
        db.commit().unwrap();
    }

    (db.disk, live)
}

#[test]
fn c9_the_file_is_self_contained_and_portable() {
    let (source, live) = populate();

    // Copying the raw bytes is what moving between machines amounts to.
    let copy = Disk {
        bytes: source.bytes.to_vec(),
    };

    let db = Db::open(copy).unwrap();
    assert_eq!(db.db.len(), live.len());
    db.verify().unwrap();
    for id in &live {
        let doc = db.get(*id).unwrap();
        assert_eq!(doc["kind"], "Function");
        assert!(doc["qualified_name"]
            .as_str()
            .unwrap()
            .starts_with("cndb::"));
    }
}

#[test]
fn c8_a_crash_at_any_byte_never_yields_a_corrupt_database() {
    let (source, _) = populate();
    let bytes = source.bytes;

    // A crash leaves some prefix of the intended writes on disk. Every prefix
    // must either be rejected outright or open into a fully consistent
    // database. What must never happen is opening and then handing back
    // damaged data.
    let mut opened = 0;
    for len in 0..=bytes.len() {
        let prefix = Disk {
            bytes: bytes[..len].to_vec(),
        };
        let db = match Db::open(prefix) {
            Ok(db) => db,
            Err(_) => continue,
        };
        opened += 1;

        // Whatever it claims to hold must actually be readable and intact.
        db.verify()
            .unwrap_or_else(|e| panic!("prefix of {len} bytes opened but failed verify: {e:?}"));
        for id in db.db.ids() {
            db.get(id)
                .unwrap_or_else(|e| panic!("prefix of {len} bytes: {id:?} unreadable: {e:?}"));
        }
    }

    assert!(
        opened > 1,
        "expected several prefixes to be recoverable, only {opened} were"
    );
}

#[test]
fn a_zero_length_prefix_is_treated_as_a_new_database_not_a_corrupt_one() {
    let db = Db::open(Disk::default()).unwrap();
    assert!(db.db.is_empty());
    assert_eq!(db.db.stats().generation, 0);
}

#[test]
fn the_on_disk_layout_is_stable() {
    let bytes = {
        let mut db = Db::open(Disk::default()).unwrap();
        db.insert(&json(r#"{ "x": 1 }"#)).unwrap();
        db.commit().unwrap();
        db.disk.bytes
    };

    // Guards against silent format drift: a change here must be a deliberate
    // version bump, not a side effect of refactoring.
    assert_eq!(&bytes[0..4], b"CNDB", "magic bytes moved");
    assert_eq!(
        u32::from_le_bytes(bytes[4..8].try_into().unwrap()),
        FORMAT_VERSION,
        "version field moved or changed"
    );
    // Slot B carries its own magic once the first commit lands there.
    assert_eq!(&bytes[64..68], b"CNDB", "second header slot moved");
    assert!(
        bytes.len() > 128,
        "records must start after both header slots"
    );
}

#[test]
fn a_database_written_by_a_future_version_is_refused() {
    let mut bytes = {
        let mut db = Db::open(Disk::default()).unwrap();
        db.insert(&json(r#"{ "x": 1 }"#)).unwrap();
        db.commit().unwrap();
        db.disk.bytes
    };

    // Rewrite both version fields, re-checksumming so the version is what
    // fails rather than corruption.
    for slot in 0..2 {
        let base = slot * 64;
        bytes[base + 4..base + 8].copy_from_slice(&0x0009_0000u32.to_le_bytes());
        bytes[base + 40..base + 44].fill(0);
        let crc = crc32fast::hash(&bytes[base..base + 64]);
        bytes[base + 40..base + 44].copy_from_slice(&crc.to_le_bytes());
    }

    assert!(matches!(
        Db::open(Disk { bytes }),
        Err(Failure::Refused(CndbError::UnsupportedVersion { .. }))
    ));
}

#[test]
fn reopening_repeatedly_does_not_grow_the_file() {
    let (mut disk, _) = populate();

    let before = disk.bytes.clone();
    for _ in 0..10 {
        let db = Db::open(disk).unwrap();
        db.verify().unwrap();
        disk = db.disk;
    }
    assert_eq!(disk.bytes.len(), before.len());
    assert_eq!(
        disk.bytes, before,
        "opening without writing must not touch the file"
    );
}

/// Abandoned writes are reclaimed *logically* — the next commit overwrites
/// them — but the engine never shortens the file, so its length stays at the
/// high-water mark.
///
/// What matters here is that repeated crashes do not leak: the committed
/// region must stay small, and the file must not grow once per crash.
#[test]
fn abandoned_writes_are_overwritten_rather_than_leaked() {
    let junk = json(&format!(r#"{{ "discard": "{}" }}"#, "x".repeat(200)));

    // Five separate crash-and-recover cycles, each abandoning the same volume.
    let mut disk = Disk::default();
    let mut high_water = 0;
    for cycle in 0..5 {
        let mut db = Db::open(disk).unwrap();
        db.insert(&json(&format!(r#"{{ "cycle": {cycle} }}"#)))
            .unwrap();
        db.commit().unwrap();

        for _ in 0..50 {
            db.insert(&junk).unwrap();
        }
        disk = db.disk; // crash: flushed, never committed

        let size = disk.bytes.len() as u64;
        if cycle == 0 {
            high_water = size;
        }
    }

    let db = Db::open(disk).unwrap();
    db.verify().unwrap();
    assert_eq!(db.db.len(), 5, "one surviving document per cycle");

    // Each cycle reuses the previous cycle's abandoned bytes, so the file sits
    // near a single cycle's high-water mark rather than five times it.
    let final_size = db.disk.bytes.len() as u64;
    assert!(
        final_size < high_water * 2,
        "file grew to {final_size} against a one-cycle mark of {high_water}: \
         abandoned bytes are leaking, not being reused"
    );

    // The committed region is a small fraction of the physical file — the
    // abandoned tail is beyond it and is never read back.
    let committed = db.db.stats().committed_len;
    assert!(
        committed * 4 < final_size,
        "committed region {committed} should be far smaller than the file {final_size}"
    );
}
