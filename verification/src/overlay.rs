//! One session's overlay: the writes of both record kinds that the session has
//! made and not yet committed.
//!
//! A hash that the overlay holds shadows the base store for reads in the session;
//! a hash that it does not hold is answered by the base store. Reads never add
//! anything to the overlay, and writes never touch the base store.
use crate::pending::{lists_present, self_keyed, Keyed, Pending};
use crate::record::{data_option_view, DataHashRecord, DataRecordModel, MerkleRecord};
use vstd::prelude::*;

verus! {

/// The overlay's answer to a read.
#[derive(Debug, PartialEq, Eq)]
pub enum Lookup<R> {
    /// The overlay holds the hash: this is what the session sees under it, a
    /// record or nothing. The base store is not asked.
    Pending(Option<R>),
    /// The overlay does not hold the hash: the base store answers.
    Base,
}

/// What a lookup of a payload record holds.
pub open spec fn data_lookup_view(lookup: Lookup<DataHashRecord>) -> Lookup<DataRecordModel> {
    match lookup {
        Lookup::Pending(v) => Lookup::Pending(data_option_view(v)),
        Lookup::Base => Lookup::Base,
    }
}

/// The payload records of a list, as plain values.
pub open spec fn data_views(records: Seq<DataHashRecord>) -> Seq<DataRecordModel> {
    records.map_values(|r: DataHashRecord| r@)
}

/// The pending writes of a session, as two maps.
pub struct OverlayModel {
    pub merkle: Map<Seq<u8>, Option<MerkleRecord>>,
    pub data: Map<Seq<u8>, Option<DataRecordModel>>,
}

impl OverlayModel {
    /// The overlay of a session that has written nothing.
    pub open spec fn empty() -> OverlayModel {
        OverlayModel { merkle: Map::empty(), data: Map::empty() }
    }

    /// Every record sits under its own hash.
    pub open spec fn wf(self) -> bool {
        self_keyed(self.merkle) && self_keyed(self.data)
    }

    /// The overlay after a write of one tree node.
    pub open spec fn set_merkle(self, record: MerkleRecord) -> OverlayModel {
        OverlayModel { merkle: self.merkle.insert(record.hash@, Some(record)), data: self.data }
    }

    /// The overlay after a write of several tree nodes, in order.
    pub open spec fn set_merkle_all(self, records: Seq<MerkleRecord>) -> OverlayModel
        decreases records.len(),
    {
        if records.len() == 0 {
            self
        } else {
            self.set_merkle_all(records.drop_last()).set_merkle(records.last())
        }
    }

    /// The overlay after a write of one payload.
    pub open spec fn set_data(self, record: DataRecordModel) -> OverlayModel {
        OverlayModel { merkle: self.merkle, data: self.data.insert(record.hash, Some(record)) }
    }

    /// The overlay's answer to a read of a tree node.
    pub open spec fn get_merkle(self, hash: Seq<u8>) -> Lookup<MerkleRecord> {
        if self.merkle.contains_key(hash) {
            Lookup::Pending(self.merkle[hash])
        } else {
            Lookup::Base
        }
    }

    /// The overlay's answer to a read of a payload.
    pub open spec fn get_data(self, hash: Seq<u8>) -> Lookup<DataRecordModel> {
        if self.data.contains_key(hash) {
            Lookup::Pending(self.data[hash])
        } else {
            Lookup::Base
        }
    }
}

/// What a commit takes out of an overlay, for the caller to persist.
#[derive(Debug, PartialEq, Eq)]
pub struct CommitBatch {
    pub merkle_records: Vec<MerkleRecord>,
    pub data_records: Vec<DataHashRecord>,
}

/// How many records of each kind a commit flushed.
#[derive(Clone, Copy, Debug, PartialEq, Eq, Structural)]
pub struct CommitSessionResponse {
    pub merkle_records: u32,
    pub data_records: u32,
}

impl CommitBatch {
    /// The batch holds exactly the records of `overlay`, each once.
    pub open spec fn drains(&self, overlay: OverlayModel) -> bool {
        &&& lists_present(self.merkle_records@, overlay.merkle)
        &&& lists_present(data_views(self.data_records@), overlay.data)
    }

    /// The number of records of each kind, as 32-bit counts (a count that does
    /// not fit is cut to its low 32 bits). For a batch drained from an overlay
    /// these are the numbers of hashes under which the overlay held a record
    /// (`lemma_lists_present_len`).
    pub fn response(&self) -> (counts: CommitSessionResponse)
        ensures
            counts.merkle_records == (self.merkle_records@.len() as int) % 0x1_0000_0000,
            counts.data_records == (self.data_records@.len() as int) % 0x1_0000_0000,
    {
        CommitSessionResponse {
            merkle_records: low_32(self.merkle_records.len()),
            data_records: low_32(self.data_records.len()),
        }
    }
}

/// The low 32 bits of a length.
fn low_32(n: usize) -> (low: u32)
    ensures
        low == (n as int) % 0x1_0000_0000,
{
    let wide = n as u64;
    let low = (wide % 0x1_0000_0000) as u32;
    low
}

/// Where the payload records list a map, their plain values list the map's plain
/// values.
proof fn lemma_data_views_list(
    records: Seq<DataHashRecord>,
    m: Map<Seq<u8>, Option<DataHashRecord>>,
)
    requires
        lists_present(records, m),
    ensures
        lists_present(
            data_views(records),
            m.map_values(|v: Option<DataHashRecord>| data_option_view(v)),
        ),
{
    let views = data_views(records);
    let mv = m.map_values(|v: Option<DataHashRecord>| data_option_view(v));
    assert forall|i: int, j: int| 0 <= i < j < views.len() implies (#[trigger] views[i]).key() != (
    #[trigger] views[j]).key() by {
        assert(records[i].key() != records[j].key());
    }
    assert forall|i: int| 0 <= i < views.len() implies mv.contains_key((#[trigger] views[i]).key())
        && mv[views[i].key()] == Some(views[i]) by {
        assert(m.contains_key(records[i].key()));
    }
    assert forall|k: Seq<u8>| #[trigger] mv.contains_key(k) && mv[k] is Some implies exists|i: int|
        0 <= i < views.len() && (#[trigger] views[i]).key() == k by {
        assert(m.contains_key(k));
        let i = choose|i: int| 0 <= i < records.len() && (#[trigger] records[i]).key() == k;
        assert(views[i].key() == k);
    }
}

/// The pending writes of one session.
pub struct OverlayState {
    merkle: Pending<MerkleRecord>,
    data: Pending<DataHashRecord>,
}

impl OverlayState {
    /// Both tables are well formed.
    pub closed spec fn wf(&self) -> bool {
        self.merkle.wf() && self.data.wf()
    }

    /// The pending writes as two maps.
    pub closed spec fn view(&self) -> OverlayModel {
        OverlayModel {
            merkle: self.merkle@,
            data: self.data@.map_values(|v: Option<DataHashRecord>| data_option_view(v)),
        }
    }

    /// In a well-formed overlay every record sits under its own hash.
    pub proof fn lemma_view_wf(&self)
        requires
            self.wf(),
        ensures
            self@.wf(),
    {
        self.merkle.lemma_self_keyed();
        self.data.lemma_self_keyed();
        let d = self.data@;
        let dv = self@.data;
        assert forall|k: Seq<u8>| #[trigger] dv.contains_key(k) implies (dv[k] matches Some(r)
            ==> r.key() == k) by {
            assert(d.contains_key(k));
        }
    }

    /// The overlay of a session that has written nothing.
    pub fn new() -> (overlay: Self)
        ensures
            overlay.wf(),
            overlay@ == OverlayModel::empty(),
    {
        let overlay = OverlayState { merkle: Pending::new(), data: Pending::new() };
        assert(overlay@.data =~= Map::empty());
        overlay
    }

    /// Reads a tree node: the overlay's own value where it holds the hash, and
    /// otherwise the word that the base store has to answer.
    pub fn get_merkle_record(&self, hash: &[u8; 32]) -> (r: Lookup<MerkleRecord>)
        requires
            self.wf(),
        ensures
            r == self@.get_merkle(hash@),
    {
        match self.merkle.get(hash) {
            Some(v) => Lookup::Pending(*v),
            None => Lookup::Base,
        }
    }

    /// Writes a tree node into the overlay, under its own hash.
    pub fn set_merkle_record(&mut self, record: MerkleRecord)
        requires
            old(self).wf(),
        ensures
            final(self).wf(),
            final(self)@ == old(self)@.set_merkle(record),
    {
        self.merkle.put(record);
    }

    /// Writes several tree nodes into the overlay, in order.
    pub fn set_merkle_records(&mut self, records: &Vec<MerkleRecord>)
        requires
            old(self).wf(),
        ensures
            final(self).wf(),
            final(self)@ == old(self)@.set_merkle_all(records@),
    {
        let mut i: usize = 0;
        while i < records.len()
            invariant
                i <= records.len(),
                self.wf(),
                self@ == old(self)@.set_merkle_all(records@.subrange(0, i as int)),
            decreases records.len() - i,
        {
            assert(records@.subrange(0, i + 1).drop_last() =~= records@.subrange(0, i as int));
            self.merkle.put(records[i]);
            i += 1;
        }
        assert(records@.subrange(0, i as int) =~= records@);
    }

    /// Reads a payload: the overlay's own value where it holds the hash, and
    /// otherwise the word that the base store has to answer.
    pub fn get_data_record(&self, hash: &[u8; 32]) -> (r: Lookup<DataHashRecord>)
        requires
            self.wf(),
        ensures
            data_lookup_view(r) == self@.get_data(hash@),
    {
        match self.data.get(hash) {
            Some(v) => {
                match v {
                    Some(record) => Lookup::Pending(Some(record.clone())),
                    None => Lookup::Pending(None),
                }
            },
            None => Lookup::Base,
        }
    }

    /// Writes a payload into the overlay, under its own hash.
    pub fn set_data_record(&mut self, record: DataHashRecord)
        requires
            old(self).wf(),
        ensures
            final(self).wf(),
            final(self)@ == old(self)@.set_data(record@),
    {
        let ghost r = record;
        self.data.put(record);
        assert(self@.data =~= old(self)@.data.insert(r@.hash, Some(r@)));
    }

    /// Forgets every pending write.
    pub fn clear(&mut self)
        ensures
            final(self).wf(),
            final(self)@ == OverlayModel::empty(),
    {
        self.merkle.clear();
        self.data.clear();
        assert(self@.data =~= Map::empty());
    }

    /// Empties the overlay and hands out its records for persisting: every record
    /// once, in no promised order. No two records of a kind share a hash, so the
    /// order in which they are persisted makes no difference to the store.
    pub fn drain(&mut self) -> (batch: CommitBatch)
        requires
            old(self).wf(),
        ensures
            final(self).wf(),
            final(self)@ == OverlayModel::empty(),
            batch.drains(old(self)@),
    {
        let merkle_records = self.merkle.drain();
        let data_records = self.data.drain();
        proof {
            lemma_data_views_list(data_records@, old(self).data@);
            assert(self@.data =~= Map::empty());
        }
        CommitBatch { merkle_records, data_records }
    }
}

impl Default for OverlayState {
    fn default() -> (overlay: Self)
        ensures
            overlay.wf(),
            overlay@ == OverlayModel::empty(),
    {
        OverlayState::new()
    }
}

} // verus!
