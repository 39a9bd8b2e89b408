//! The master index: every in-memory lookup structure, in one committed blob.
//!
//! It carries the document offset map, the tombstone set and the id allocator.
//!
//! bincode is not self-describing, so adding a field breaks compatibility with
//! older files. `FORMAT_VERSION` in the header is what guards that: a file
//! written by an older layout is rejected at open rather than misread.

use crate::error::{CndbError, ErrorView};
use crate::storage::record::DocId;
use std::collections::{HashMap, HashSet};
use vstd::prelude::*;
use vstd::std_specs::hash::group_hash_axioms;
use vstd::std_specs::iter::IteratorSpec;

verus! {

broadcast use group_hash_axioms;

/// All indexes, serialized as one record on each commit.
///
/// Documents are keyed by the number in their [`DocId`].
#[derive(Debug, PartialEq, Eq)]
pub struct MasterIndex {
    /// Document id to its byte offset in the log.
    pub offsets: HashMap<u64, u64>,
    /// Documents tombstoned but not yet compacted away.
    pub dead: HashSet<u64>,
    /// Next id to hand out. Never reused, even after a delete.
    pub next_doc_id: u64,
}

/// What a [`MasterIndex`] holds.
#[verifier::ext_equal]
pub struct IndexView {
    pub offsets: Map<u64, u64>,
    pub dead: Set<u64>,
    pub next_doc_id: u64,
}

impl IndexView {
    /// Every tombstone belongs to a stored document, and every id in use was
    /// handed out before the next one.
    pub open spec fn wf(self) -> bool {
        &&& self.offsets.dom().finite()
        &&& self.dead.subset_of(self.offsets.dom())
        &&& 0 < self.next_doc_id
        &&& forall|id: u64| #[trigger]
            self.offsets.contains_key(id) ==> 0 < id < self.next_doc_id
    }

    /// The document exists and has not been deleted.
    pub open spec fn live(self, id: u64) -> bool {
        self.offsets.contains_key(id) && !self.dead.contains(id)
    }

    /// The ids of all live documents.
    pub open spec fn live_set(self) -> Set<u64> {
        self.offsets.dom().difference(self.dead)
    }

    /// The index after a document at `offset` was given the next id.
    pub open spec fn with_document(self, offset: u64) -> IndexView {
        IndexView {
            offsets: self.offsets.insert(self.next_doc_id, offset),
            dead: self.dead,
            next_doc_id: (self.next_doc_id + 1) as u64,
        }
    }

    /// The index after a document was deleted.
    pub open spec fn without(self, id: u64) -> IndexView {
        IndexView {
            offsets: self.offsets,
            dead: self.dead.insert(id),
            next_doc_id: self.next_doc_id,
        }
    }

    /// Length of the index as it is stored.
    pub open spec fn stored_len(self) -> nat {
        24 + 16 * self.offsets.len() + 8 * self.dead.len()
    }
}

/// The index of an empty database.
///
/// Ids start at 1 so 0 stays available as a sentinel.
pub open spec fn empty_index() -> IndexView {
    IndexView { offsets: Map::empty(), dead: Set::empty(), next_doc_id: 1 }
}

impl View for MasterIndex {
    type V = IndexView;

    open spec fn view(&self) -> IndexView {
        IndexView {
            offsets: self.offsets@,
            dead: self.dead@,
            next_doc_id: self.next_doc_id,
        }
    }
}

/// What `bincode::deserialize` makes of bytes that should hold an offset map, a
/// tombstone set and the next id; the text of its error when it refuses them.
pub uninterp spec fn bincode_index(bytes: Seq<u8>) -> Result<
    (Map<u64, u64>, Set<u64>, u64),
    Seq<char>,
>;

/// `bincode::serialize` on the three parts of an index. It succeeds on values
/// of these types, since each knows its length and no size limit is set; every
/// length and every integer takes eight bytes; and deserializing the result
/// gives the parts back. The order in which the entries are written, and so the
/// bytes themselves, are left open: they follow the order in which the hash
/// table is walked.
#[verifier::external_body]
fn serialize_index(offsets: &HashMap<u64, u64>, dead: &HashSet<u64>, next_doc_id: u64) -> (result:
    Result<Vec<u8>, String>)
    ensures
        result is Ok,
        bincode_index(result->Ok_0@) is Ok,
        bincode_index(result->Ok_0@)->Ok_0 == (offsets@, dead@, next_doc_id),
        result->Ok_0@.len() == 24 + 16 * offsets@.len() + 8 * dead@.len(),
{
    bincode::serialize(&(offsets, dead, next_doc_id)).map_err(|e| e.to_string())
}

/// `bincode::deserialize` into the three parts of an index. What it returns, or
/// the text of its error, depends on the bytes alone.
#[verifier::external_body]
fn deserialize_index(bytes: &[u8]) -> (result: Result<
    (HashMap<u64, u64>, HashSet<u64>, u64),
    String,
>)
    ensures
        result is Ok == bincode_index(bytes@) is Ok,
        result is Ok ==> bincode_index(bytes@)->Ok_0 == (
            result->Ok_0.0@,
            result->Ok_0.1@,
            result->Ok_0.2,
        ),
        result is Err ==> bincode_index(bytes@)->Err_0 == result->Err_0@,
{
    bincode::deserialize(bytes).map_err(|e| e.to_string())
}

/// The index that a master index record's payload holds.
pub open spec fn parse_index(bytes: Seq<u8>) -> Result<IndexView, ErrorView> {
    match bincode_index(bytes) {
        Ok((offsets, dead, next_doc_id)) => Ok(IndexView { offsets, dead, next_doc_id }),
        Err(text) => Err(ErrorView::CorruptIndex(text)),
    }
}

/// `x` is among the first `n` things that `walk` goes through.
spec fn walked(walk: Seq<&u64>, n: int, x: u64) -> bool {
    exists|i: int| 0 <= i < n && *#[trigger] walk[i] == x
}

proof fn lemma_walk(walk: Seq<&u64>, n: int)
    requires
        0 <= n < walk.len(),
    ensures
        forall|x: u64| walked(walk, n + 1, x) <==> walked(walk, n, x) || x == *walk[n],
        walk.no_duplicates() ==> !walked(walk, n, *walk[n]),
{
}

proof fn lemma_walk_all(walk: Seq<&u64>)
    ensures
        forall|x: u64|
            walk.unref().to_set().contains(x) <==> walked(walk, walk.len() as int, x),
{
    let all = walk.unref();
    assert forall|x: u64| all.to_set().contains(x) <==> walked(walk, walk.len() as int, x) by {
        if all.contains(x) {
            let i = all.index_of(x);
            assert(*walk[i] == x);
        }
        if walked(walk, walk.len() as int, x) {
            let i = choose|i: int| 0 <= i < walk.len() && *#[trigger] walk[i] == x;
            assert(all[i] == x);
        }
    }
}

impl Default for MasterIndex {
    fn default() -> (index: Self)
        ensures
            index@ == empty_index(),
    {
        MasterIndex { offsets: HashMap::new(), dead: HashSet::new(), next_doc_id: 1 }
    }
}

impl Clone for MasterIndex {
    fn clone(&self) -> (copy: Self)
        ensures
            copy@ == self@,
    {
        let mut dead: HashSet<u64> = HashSet::new();
        let ids = self.dead.iter();
        proof {
            lemma_walk_all(ids.remaining());
        }
        for id in it: ids
            invariant
                forall|x: u64|
                    self.dead@.contains(x) <==> walked(it.seq(), it.seq().len() as int, x),
                forall|x: u64| #[trigger]
                    dead@.contains(x) <==> walked(it.seq(), it.index() as int, x),
        {
            proof {
                lemma_walk(it.seq(), it.index() as int);
            }
            dead.insert(*id);
        }
        assert(dead@ =~= self.dead@);
        MasterIndex { offsets: self.offsets.clone(), dead, next_doc_id: self.next_doc_id }
    }
}

impl MasterIndex {
    /// Reserve the next document id.
    pub fn allocate_id(&mut self) -> (id: DocId)
        requires
            old(self).next_doc_id < u64::MAX,
        ensures
            id == DocId(old(self).next_doc_id),
            final(self)@ == (IndexView {
                next_doc_id: (old(self).next_doc_id + 1) as u64,
                ..old(self)@
            }),
    {
        let id = DocId(self.next_doc_id);
        self.next_doc_id = self.next_doc_id + 1;
        id
    }

    /// Record where a document landed.
    pub fn insert(&mut self, id: DocId, offset: u64)
        ensures
            final(self)@ == (IndexView {
                offsets: old(self)@.offsets.insert(id.0, offset),
                ..old(self)@
            }),
    {
        self.offsets.insert(id.0, offset);
    }

    /// Offset of a live document, or `None` if unknown or deleted.
    pub fn offset_of(&self, id: DocId) -> (offset: Option<u64>)
        ensures
            offset == (if self@.live(id.0) {
                Some(self@.offsets[id.0])
            } else {
                None
            }),
    {
        if self.dead.contains(&id.0) {
            return None;
        }
        match self.offsets.get(&id.0) {
            Some(offset) => Some(*offset),
            None => None,
        }
    }

    /// True if the id exists and has not been deleted.
    pub fn is_live(&self, id: DocId) -> (live: bool)
        ensures
            live == self@.live(id.0),
    {
        self.offsets.contains_key(&id.0) && !self.dead.contains(&id.0)
    }

    /// Number of live documents.
    pub fn live_count(&self) -> (count: usize)
        requires
            self@.dead.len() <= self@.offsets.len(),
        ensures
            count == self@.offsets.len() - self@.dead.len(),
            self@.wf() ==> count == self@.live_set().len(),
    {
        proof {
            if self@.wf() {
                lemma_live_count(self@);
            }
        }
        self.offsets.len() - self.dead.len()
    }

    /// Number of tombstoned documents awaiting compaction.
    pub fn dead_count(&self) -> (count: usize)
        ensures
            count == self@.dead.len(),
    {
        self.dead.len()
    }

    /// Share of stored documents that are tombstones, as a numerator and a
    /// denominator that is never zero.
    pub fn dead_share(&self) -> (share: (usize, usize))
        ensures
            share == (if self@.offsets.len() == 0 {
                (0usize, 1usize)
            } else {
                (self@.dead.len() as usize, self@.offsets.len() as usize)
            }),
            share.1 != 0,
            self@.offsets.len() != 0 ==> share.0 == self@.dead.len() && share.1
                == self@.offsets.len(),
    {
        if self.offsets.len() == 0 {
            return (0, 1);
        }
        (self.dead.len(), self.offsets.len())
    }

    /// Every live document id, in no particular order.
    pub fn live_ids(&self) -> (ids: Vec<DocId>)
        ensures
            ids@.no_duplicates(),
            forall|id: u64| #[trigger] ids@.contains(DocId(id)) <==> self@.live(id),
    {
        let mut ids: Vec<DocId> = Vec::new();
        let keys = self.offsets.keys();
        proof {
            lemma_walk_all(keys.remaining());
        }
        for key in it: keys
            invariant
                forall|x: u64|
                    self.offsets@.dom().contains(x) <==> walked(
                        it.seq(),
                        it.seq().len() as int,
                        x,
                    ),
                it.seq().no_duplicates(),
                ids@.no_duplicates(),
                forall|id: u64| #[trigger]
                    ids@.contains(DocId(id)) <==> !self.dead@.contains(id) && walked(
                        it.seq(),
                        it.index() as int,
                        id,
                    ),
        {
            let ghost before = ids@;
            proof {
                lemma_walk(it.seq(), it.index() as int);
            }
            if !self.dead.contains(key) {
                ids.push(DocId(*key));
                proof {
                    assert(!before.contains(DocId(*key)));
                    assert(ids@.last() == DocId(*key));
                    assert forall|id: DocId| #[trigger] ids@.contains(id) <==> before.contains(id)
                        || id == DocId(*key) by {
                        if before.contains(id) {
                            let i = before.index_of(id);
                            assert(ids@[i] == id);
                        }
                    }
                }
            }
        }
        ids
    }

    /// Serialize for the master index record.
    pub fn encode(&self) -> (result: Result<Vec<u8>, CndbError>)
        ensures
            result is Ok,
            parse_index(result->Ok_0@) == Ok::<IndexView, ErrorView>(self@),
            result->Ok_0@.len() == self@.stored_len(),
    {
        match serialize_index(&self.offsets, &self.dead, self.next_doc_id) {
            Ok(bytes) => Ok(bytes),
            Err(text) => Err(CndbError::CorruptIndex(text)),
        }
    }

    /// Deserialize from a master index record payload.
    pub fn decode(bytes: &[u8]) -> (result: Result<Self, CndbError>)
        ensures
            match result {
                Ok(index) => parse_index(bytes@) == Ok::<IndexView, ErrorView>(index@),
                Err(e) => parse_index(bytes@) == Err::<IndexView, ErrorView>(e@),
            },
    {
        MasterIndex::from_parts(deserialize_index(bytes))
    }

    /// The index made of an offset map, a tombstone set and the next id, or the
    /// error that their text could not be read with.
    pub fn from_parts(parts: Result<(HashMap<u64, u64>, HashSet<u64>, u64), String>) -> (result:
        Result<Self, CndbError>)
        ensures
            match parts {
                Ok((offsets, dead, next_doc_id)) => result matches Ok(index) && index@
                    == (IndexView { offsets: offsets@, dead: dead@, next_doc_id }),
                Err(text) => result matches Err(e) && e@ == ErrorView::CorruptIndex(text@),
            },
    {
        match parts {
            Ok((offsets, dead, next_doc_id)) => Ok(MasterIndex { offsets, dead, next_doc_id }),
            Err(text) => Err(CndbError::CorruptIndex(text)),
        }
    }
}

/// The live documents are the stored ones less the deleted ones.
pub proof fn lemma_live_count(index: IndexView)
    requires
        index.wf(),
    ensures
        index.dead.finite(),
        index.live_set().finite(),
        index.dead.len() <= index.offsets.len(),
        index.live_set().len() == index.offsets.len() - index.dead.len(),
{
    let all = index.offsets.dom();
    vstd::set_lib::lemma_set_subset_finite(all, index.dead);
    vstd::set_lib::lemma_len_difference(all, index.dead);
    vstd::set_lib::lemma_set_disjoint_lens(index.live_set(), index.dead);
    assert(index.live_set() + index.dead =~= all);
}

/// An id is handed out once: the next id belongs to no document, and it belongs
/// to the new document and to no other once that is stored.
pub proof fn ids_are_never_reused(index: IndexView, offset: u64)
    requires
        index.wf(),
        index.next_doc_id < u64::MAX,
    ensures
        !index.offsets.contains_key(index.next_doc_id),
        !index.dead.contains(index.next_doc_id),
        index.with_document(offset).wf(),
        index.with_document(offset).live(index.next_doc_id),
        index.with_document(offset).next_doc_id > index.next_doc_id,
        forall|id: u64|
            id != index.next_doc_id ==> index.with_document(offset).live(id) == index.live(id),
{
}

/// Deleting hides one document, keeps its offset and frees no id.
pub proof fn deleting_hides_one_document(index: IndexView, id: u64)
    requires
        index.wf(),
        index.live(id),
    ensures
        index.without(id).wf(),
        !index.without(id).live(id),
        index.without(id).offsets == index.offsets,
        index.without(id).next_doc_id == index.next_doc_id,
        forall|other: u64| other != id ==> index.without(id).live(other) == index.live(other),
        index.without(id).live_set().len() == index.live_set().len() - 1,
{
    lemma_live_count(index);
    lemma_live_count(index.without(id));
}

/// A list of the live documents that holds none twice is as long as there are
/// live documents.
pub proof fn every_live_document_is_listed_once(index: IndexView, ids: Seq<DocId>)
    requires
        index.wf(),
        ids.no_duplicates(),
        forall|id: u64| #[trigger] ids.contains(DocId(id)) <==> index.live(id),
    ensures
        ids.len() == index.live_set().len(),
{
    let numbers = ids.map_values(|id: DocId| id.0);
    assert(numbers.no_duplicates()) by {
        assert forall|i: int, j: int| 0 <= i < j < numbers.len() implies numbers[i]
            != numbers[j] by {
            assert(ids[i] != ids[j]);
        }
    }
    numbers.unique_seq_to_set();
    assert forall|id: u64| numbers.to_set().contains(id) <==> index.live_set().contains(id) by {
        if numbers.contains(id) {
            let i = numbers.index_of(id);
            assert(ids[i] == DocId(id));
            assert(ids.contains(DocId(id)));
        }
        if index.live(id) {
            assert(ids.contains(DocId(id)));
            let i = ids.index_of(DocId(id));
            assert(numbers[i] == id);
        }
    }
    assert(numbers.to_set() =~= index.live_set());
}

/// What the operations on an index do to what it holds: a document is live from
/// when it is stored until it is deleted; storing takes the next id and no
/// other; a new index is empty and hands out 1 first.
pub proof fn what_an_index_knows(index: IndexView, offset: u64, id: u64)
    requires
        index.next_doc_id < u64::MAX,
    ensures
        index.live(id) <==> index.offsets.contains_key(id) && !index.dead.contains(id),
        index.live_set().contains(id) <==> index.live(id),
        index.with_document(offset).offsets == index.offsets.insert(index.next_doc_id, offset),
        index.with_document(offset).dead == index.dead,
        index.with_document(offset).next_doc_id == index.next_doc_id + 1,
        index.without(id).offsets == index.offsets,
        index.without(id).dead == index.dead.insert(id),
        index.without(id).next_doc_id == index.next_doc_id,
        empty_index().offsets == Map::<u64, u64>::empty(),
        empty_index().dead == Set::<u64>::empty(),
        empty_index().next_doc_id == 1,
        index.stored_len() == 24 + 16 * index.offsets.len() + 8 * index.dead.len(),
{
}

/// An index shows all it holds.
pub proof fn an_index_shows_what_it_holds(index: MasterIndex)
    ensures
        index@.offsets == index.offsets@,
        index@.dead == index.dead@,
        index@.next_doc_id == index.next_doc_id,
{
}

} // verus!
