use cndb::{Cndb, CndbError, DocId, StorageEngine};
use cndb::storage::file::{FileOp, ReadRequest};
use cndb::storage::log::{verify_log, VerifyStep};
use cndb::storage::protocol::{CommitStage, CommitStep, LoadStep, OpenStep};
use cndb::storage::record::{read_record_at, RecordStep};
use serde_json::Value;

/// A file in memory.
#[derive(Debug, Clone, Default)]
struct Disk {
    bytes: Vec<u8>,
}

/// Why an operation on a [`Db`] failed.
#[derive(Debug)]
enum Failure {
    Refused(CndbError),
    ReadPastEnd,
}

impl From<CndbError> for Failure {
    fn from(e: CndbError) -> Self {
        Failure::Refused(e)
    }
}

impl Disk {
    fn write(&mut self, offset: u64, bytes: &[u8]) {
        let start = offset as usize;
        let end = start + bytes.len();
        if self.bytes.len() < end {
            self.bytes.resize(end, 0);
        }
        self.bytes[start..end].copy_from_slice(bytes);
    }

    fn read(&self, request: ReadRequest) -> Result<Vec<u8>, Failure> {
        let end = request.offset.checked_add(request.len);
        match end {
            Some(end) if end <= self.bytes.len() as u64 => {
                Ok(self.bytes[request.offset as usize..end as usize].to_vec())
            }
            _ => Err(Failure::ReadPastEnd),
        }
    }

    fn perform(&mut self, ops: &[FileOp]) {
        for op in ops {
            if let FileOp::Write { offset, bytes } = op {
                self.write(*offset, bytes);
            }
        }
    }
}

/// A database and the file it lives in.
#[derive(Debug)]
struct Db {
    disk: Disk,
    db: Cndb,
}

impl Db {
    fn open(mut disk: Disk) -> Result<Db, Failure> {
        let store = match Cndb::open(disk.bytes.len() as u64)? {
            OpenStep::Create(ops) => {
                disk.perform(&ops);
                StorageEngine::initialize()
            }
            OpenStep::Load(mut load) => loop {
                let reply = disk.read(load.request())?;
                match StorageEngine::load(load, reply)? {
                    LoadStep::More(next) => load = next,
                    LoadStep::Done(engine) => break engine,
                }
            },
        };
        Ok(Db {
            disk,
            db: Cndb::over(store),
        })
    }

    fn insert(&mut self, doc: &Value) -> Result<DocId, Failure> {
        let write = self.db.insert(doc)?;
        self.disk.perform(&write.ops);
        Ok(self.db.finish_insert(&write))
    }

    fn get(&self, id: DocId) -> Result<Value, Failure> {
        let mut read = self.db.get(id)?;
        loop {
            let reply = self.disk.read(read.request())?;
            match read_record_at(read, reply)? {
                RecordStep::More(next) => read = next,
                RecordStep::Done(record) => return Ok(Cndb::finish_get(record)?),
            }
        }
    }

    fn delete(&mut self, id: DocId) -> Result<(), Failure> {
        let write = self.db.delete(id)?;
        self.disk.perform(&write.ops);
        self.db.finish_delete(id, &write);
        Ok(())
    }

    fn commit(&mut self) -> Result<(), Failure> {
        let mut stage = CommitStage::Begin;
        loop {
            match self.db.commit(stage)? {
                CommitStep::Act { ops, then } => {
                    self.disk.perform(&ops);
                    stage = then;
                }
                CommitStep::Done => return Ok(()),
            }
        }
    }

    fn verify(&self) -> Result<usize, Failure> {
        let mut step = self.db.verify()?;
        loop {
            match step {
                VerifyStep::Done(count) => return Ok(count),
                VerifyStep::More(run) => {
                    let reply = self.disk.read(run.read.request())?;
                    step = verify_log(run, reply)?;
                }
            }
        }
    }
}

fn json(text: &str) -> Value {
    serde_json::from_str(text).unwrap()
}

#[test]
fn documents_roundtrip_across_a_reopen() {
    let (disk, kept, removed) = {
        let mut db = Db::open(Disk::default()).unwrap();
        let kept = db
            .insert(&json(r#"{ "kind": "Function", "name": "commit" }"#))
            .unwrap();
        let removed = db
            .insert(&json(r#"{ "kind": "Function", "name": "gone" }"#))
            .unwrap();
        db.delete(removed).unwrap();
        db.commit().unwrap();
        (db.disk, kept, removed)
    };

    let db = Db::open(disk).unwrap();
    assert_eq!(db.db.len(), 1);
    assert_eq!(db.get(kept).unwrap()["name"], "commit");
    assert!(matches!(
        db.get(removed),
        Err(Failure::Refused(CndbError::Deleted(_)))
    ));
    assert_eq!(db.db.ids(), vec![kept]);
    db.verify().unwrap();
}

#[test]
fn dropping_without_committing_discards_writes() {
    let disk = {
        let mut db = Db::open(Disk::default()).unwrap();
        db.insert(&json(r#"{ "name": "never committed" }"#))
            .unwrap();
        db.disk
    };
    assert!(Db::open(disk).unwrap().db.is_empty());
}

#[test]
fn non_objects_are_refused_before_anything_is_written() {
    let mut db = Db::open(Disk::default()).unwrap();

    assert!(matches!(
        db.insert(&json("[1, 2, 3]")),
        Err(Failure::Refused(CndbError::NotAnObject { .. }))
    ));
    assert!(
        db.db.is_empty(),
        "a rejected insert must not consume an id"
    );
}

#[test]
fn a_document_reads_back_as_it_was_inserted() {
    let mut db = Db::open(Disk::default()).unwrap();
    let doc = json(r#"{ "kind": "Function", "name": "parse_header" }"#);
    let id = db.insert(&doc).unwrap();
    assert_eq!(id, DocId(1));
    assert_eq!(db.get(id).unwrap(), doc);
    db.commit().unwrap();
    assert_eq!(db.get(id).unwrap()["kind"], "Function");
    assert_eq!(db.db.stats().generation, 1);
    assert_eq!(db.db.store().live_slot(), 1);
    assert!(matches!(
        db.get(DocId(77)),
        Err(Failure::Refused(CndbError::NotFound(DocId(77))))
    ));
}

#[test]
fn a_refused_document_leaves_the_next_id_alone() {
    let mut db = Db::open(Disk::default()).unwrap();
    let bytes = db.disk.bytes.clone();
    assert!(db.insert(&json("null")).is_err());
    assert!(db.insert(&json(r#"{ "n": 18446744073709551615 }"#)).is_err());
    assert_eq!(db.disk.bytes, bytes);
    assert_eq!(db.insert(&json("{}")).unwrap(), DocId(1));
}
