//! The index ledger: one record per container identifier, with the time of
//! creation, a dirty flag and the caller's metadata.

use vstd::prelude::*;
use crate::buffer::copy_bytes;

verus! {

/// One record of the index.
#[derive(Clone, Debug)]
pub struct IndexRecord {
    /// The container's identifier.
    pub id: u128,
    /// Seconds since the epoch at which the record was made.
    pub created_at: u64,
    /// Whether the container was marked dirty.
    pub dirty: bool,
    /// The caller's metadata, as JSON text.
    pub metadata: Vec<u8>,
}

/// What a record holds besides its identifier, as plain values.
pub struct RecordView {
    pub created_at: u64,
    pub dirty: bool,
    pub metadata: Seq<u8>,
}

impl View for IndexRecord {
    type V = RecordView;

    open spec fn view(&self) -> RecordView {
        RecordView { created_at: self.created_at, dirty: self.dirty, metadata: self.metadata@ }
    }
}

/// The metadata of a record that was given none: the empty JSON object.
pub open spec fn empty_metadata() -> Seq<u8> {
    seq![0x7bu8, 0x7du8]
}

/// The ledger: records in the order in which their identifiers first came.
pub struct Ledger {
    records: Vec<IndexRecord>,
}

/// The records as a map from identifier to content; a later record of an
/// identifier would hide an earlier one.
pub open spec fn map_of(records: Seq<IndexRecord>) -> Map<u128, RecordView>
    decreases records.len(),
{
    if records.len() == 0 {
        Map::empty()
    } else {
        map_of(records.drop_last()).insert(records.last().id, records.last()@)
    }
}

/// No identifier occurs twice.
pub open spec fn distinct_ids(records: Seq<IndexRecord>) -> bool {
    forall|i: int, j: int| 0 <= i < j < records.len() ==> records[i].id != records[j].id
}

proof fn lemma_keys(records: Seq<IndexRecord>, id: u128)
    ensures
        map_of(records).contains_key(id) <==> exists|i: int|
            0 <= i < records.len() && (#[trigger] records[i]).id == id,
    decreases records.len(),
{
    if records.len() > 0 {
        let shorter = records.drop_last();
        lemma_keys(shorter, id);
        if map_of(records).contains_key(id) {
            if records.last().id == id {
                assert(records[records.len() - 1].id == id);
            } else {
                let i = choose|i: int| 0 <= i < shorter.len() && (#[trigger] shorter[i]).id == id;
                assert(records[i].id == id);
            }
        }
        if exists|i: int| 0 <= i < records.len() && (#[trigger] records[i]).id == id {
            let i = choose|i: int| 0 <= i < records.len() && (#[trigger] records[i]).id == id;
            if i < records.len() - 1 {
                assert(shorter[i].id == id);
            }
        }
    }
}

proof fn lemma_record_at(records: Seq<IndexRecord>, i: int)
    requires
        distinct_ids(records),
        0 <= i < records.len(),
    ensures
        map_of(records).contains_key(records[i].id),
        map_of(records)[records[i].id] == records[i]@,
    decreases records.len(),
{
    if i < records.len() - 1 {
        let shorter = records.drop_last();
        assert(shorter[i] == records[i]);
        assert(distinct_ids(shorter)) by {
            assert forall|a: int, b: int| 0 <= a < b < shorter.len() implies shorter[a].id
                != shorter[b].id by {
                assert(shorter[a] == records[a] && shorter[b] == records[b]);
            }
        }
        lemma_record_at(shorter, i);
    }
}

proof fn lemma_replace(records: Seq<IndexRecord>, i: int, record: IndexRecord)
    requires
        distinct_ids(records),
        0 <= i < records.len(),
        records[i].id == record.id,
    ensures
        distinct_ids(records.update(i, record)),
        map_of(records.update(i, record)) == map_of(records).insert(record.id, record@),
    decreases records.len(),
{
    let changed = records.update(i, record);
    let shorter = records.drop_last();
    if i == records.len() - 1 {
        assert(changed.drop_last() =~= shorter);
        assert(map_of(changed) =~= map_of(records).insert(record.id, record@));
    } else {
        assert(distinct_ids(shorter)) by {
            assert forall|a: int, b: int| 0 <= a < b < shorter.len() implies shorter[a].id
                != shorter[b].id by {
                assert(shorter[a] == records[a] && shorter[b] == records[b]);
            }
        }
        assert(shorter[i] == records[i]);
        lemma_replace(shorter, i, record);
        assert(changed.drop_last() =~= shorter.update(i, record));
        assert(changed.last() == records.last());
        assert(records.last().id != record.id);
        assert(map_of(changed) =~= map_of(records).insert(record.id, record@));
    }
}

proof fn lemma_size(records: Seq<IndexRecord>)
    requires
        distinct_ids(records),
    ensures
        map_of(records).dom().finite(),
        map_of(records).dom().len() == records.len(),
    decreases records.len(),
{
    if records.len() > 0 {
        let shorter = records.drop_last();
        assert(distinct_ids(shorter)) by {
            assert forall|a: int, b: int| 0 <= a < b < shorter.len() implies shorter[a].id
                != shorter[b].id by {
                assert(shorter[a] == records[a] && shorter[b] == records[b]);
            }
        }
        lemma_size(shorter);
        lemma_keys(shorter, records.last().id);
        assert(!map_of(shorter).contains_key(records.last().id)) by {
            if map_of(shorter).contains_key(records.last().id) {
                let i = choose|i: int|
                    0 <= i < shorter.len() && (#[trigger] shorter[i]).id == records.last().id;
                assert(shorter[i] == records[i]);
            }
        }
        assert(map_of(records).dom() =~= map_of(shorter).dom().insert(records.last().id));
    }
}

impl View for Ledger {
    type V = Map<u128, RecordView>;

    closed spec fn view(&self) -> Map<u128, RecordView> {
        map_of(self.records@)
    }
}

impl Ledger {
    /// No identifier has two records.
    pub closed spec fn wf(&self) -> bool {
        distinct_ids(self.records@)
    }

    /// A ledger without records.
    pub fn new() -> (ledger: Ledger)
        ensures
            ledger.wf(),
            ledger@ == Map::<u128, RecordView>::empty(),
    {
        Ledger { records: Vec::new() }
    }

    /// The number of records.
    pub fn len(&self) -> (n: usize)
        requires
            self.wf(),
        ensures
            self@.dom().finite(),
            n == self@.dom().len(),
    {
        proof {
            lemma_size(self.records@);
        }
        self.records.len()
    }

    fn position(&self, id: u128) -> (r: Option<usize>)
        requires
            self.wf(),
        ensures
            match r {
                Some(i) => i < self.records@.len() && self.records@[i as int].id == id,
                None => !self@.contains_key(id),
            },
    {
        let mut i: usize = 0;
        while i < self.records.len()
            invariant
                i <= self.records@.len(),
                forall|k: int| 0 <= k < i ==> self.records@[k].id != id,
            decreases self.records@.len() - i,
        {
            if self.records[i].id == id {
                return Some(i);
            }
            i += 1;
        }
        proof {
            lemma_keys(self.records@, id);
        }
        None
    }

    /// The record of an identifier, where it has one.
    pub fn get(&self, id: u128) -> (r: Option<&IndexRecord>)
        requires
            self.wf(),
        ensures
            match r {
                Some(record) => self@.contains_key(id) && record.id == id && record@ == self@[id],
                None => !self@.contains_key(id),
            },
    {
        match self.position(id) {
            Some(i) => {
                proof {
                    lemma_record_at(self.records@, i as int);
                }
                Some(&self.records[i])
            },
            None => None,
        }
    }

    fn put(&mut self, record: IndexRecord)
        requires
            old(self).wf(),
        ensures
            final(self).wf(),
            final(self)@ == old(self)@.insert(record.id, record@),
    {
        match self.position(record.id) {
            Some(i) => {
                proof {
                    lemma_replace(self.records@, i as int, record);
                }
                self.records.set(i, record);
            },
            None => {
                proof {
                    lemma_keys(self.records@, record.id);
                    assert(self.records@.push(record).drop_last() =~= self.records@);
                }
                self.records.push(record);
            },
        }
    }

    /// Writes the record of an identifier: a new one where it had none, in
    /// place of the one it had otherwise.
    pub fn upsert(&mut self, id: u128, created_at: u64, dirty: bool, metadata: &[u8])
        requires
            old(self).wf(),
        ensures
            final(self).wf(),
            final(self)@ == old(self)@.insert(
                id,
                (RecordView { created_at, dirty, metadata: metadata@ }),
            ),
    {
        self.put(IndexRecord { id, created_at, dirty, metadata: copy_bytes(metadata) });
    }

    /// Marks an identifier dirty. Where it has a record, only the flag
    /// changes; where it has none, it gets one made at `now`, dirty, with
    /// empty metadata. No other record changes.
    pub fn mark_dirty(&mut self, id: u128, now: u64)
        requires
            old(self).wf(),
        ensures
            final(self).wf(),
            final(self)@ == marked_dirty(old(self)@, id, now),
    {
        match self.position(id) {
            Some(i) => {
                proof {
                    lemma_record_at(self.records@, i as int);
                }
                let created_at = self.records[i].created_at;
                let metadata = copy_bytes(self.records[i].metadata.as_slice());
                self.put(IndexRecord { id, created_at, dirty: true, metadata });
            },
            None => {
                let mut metadata: Vec<u8> = Vec::new();
                metadata.push(0x7b);
                metadata.push(0x7d);
                assert(metadata@ =~= empty_metadata());
                self.put(IndexRecord { id, created_at: now, dirty: true, metadata });
            },
        }
    }
}

/// Marking an identifier dirty twice leaves the ledger as marking it once
/// does: the record is dirty and none is added.
pub proof fn lemma_mark_dirty_twice(
    before: Map<u128, RecordView>,
    once: Map<u128, RecordView>,
    twice: Map<u128, RecordView>,
    id: u128,
    first: u64,
    second: u64,
)
    requires
        once == marked_dirty(before, id, first),
        twice == marked_dirty(once, id, second),
    ensures
        twice == once,
        once.contains_key(id) && once[id].dirty,
{
    assert(twice =~= once);
}

/// The ledger's content after an identifier was marked dirty at `now`.
pub open spec fn marked_dirty(before: Map<u128, RecordView>, id: u128, now: u64) -> Map<
    u128,
    RecordView,
> {
    before.insert(
        id,
        if before.contains_key(id) {
            RecordView {
                created_at: before[id].created_at,
                dirty: true,
                metadata: before[id].metadata,
            }
        } else {
            RecordView { created_at: now, dirty: true, metadata: empty_metadata() }
        },
    )
}

} // verus!
