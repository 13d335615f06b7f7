//! Pending writes of one record kind: a table from hash to optional record in
//! which every record sits under its own hash.
use crate::record::{DataHashRecord, DataRecordModel, MerkleRecord};
use crate::table::{enumerates, has_key, position_of, Entry, RecordTable};
use vstd::prelude::*;
use vstd::seq_lib::seq_to_set_is_finite;

verus! {

/// Something that is stored under a hash of its own.
pub trait Keyed {
    /// The bytes of the hash under which the value is stored.
    spec fn key(&self) -> Seq<u8>;
}

/// A record that can hand out its hash.
pub trait HashKeyed: Keyed + Sized {
    /// The hash under which the record is stored.
    fn hash(&self) -> (h: [u8; 32])
        ensures
            h@ == self.key(),
    ;
}

impl Keyed for MerkleRecord {
    open spec fn key(&self) -> Seq<u8> {
        self.hash@
    }
}

impl HashKeyed for MerkleRecord {
    fn hash(&self) -> (h: [u8; 32]) {
        self.hash
    }
}

impl Keyed for DataHashRecord {
    open spec fn key(&self) -> Seq<u8> {
        self.hash@
    }
}

impl HashKeyed for DataHashRecord {
    fn hash(&self) -> (h: [u8; 32]) {
        self.hash
    }
}

impl Keyed for DataRecordModel {
    open spec fn key(&self) -> Seq<u8> {
        self.hash
    }
}

/// Every record of `m` is stored under its own hash.
pub open spec fn self_keyed<R: Keyed>(m: Map<Seq<u8>, Option<R>>) -> bool {
    forall|k: Seq<u8>| #[trigger]
        m.contains_key(k) ==> (m[k] matches Some(r) ==> r.key() == k)
}

/// `records` lists the records of `m` without repetition: no two of them share a
/// hash, each is what `m` holds under its hash, and every hash under which `m`
/// holds a record is the hash of one of them. Hashes under which `m` holds no
/// record do not appear.
pub open spec fn lists_present<R: Keyed>(records: Seq<R>, m: Map<Seq<u8>, Option<R>>) -> bool {
    &&& forall|i: int, j: int|
        0 <= i < j < records.len() ==> (#[trigger] records[i]).key() != (
        #[trigger] records[j]).key()
    &&& forall|i: int|
        0 <= i < records.len() ==> m.contains_key((#[trigger] records[i]).key())
            && m[records[i].key()] == Some(records[i])
    &&& forall|k: Seq<u8>|
        #[trigger] m.contains_key(k) && m[k] is Some ==> exists|i: int|
            0 <= i < records.len() && (#[trigger] records[i]).key() == k
}

/// The hashes under which `m` holds a record.
pub open spec fn present_keys<R>(m: Map<Seq<u8>, Option<R>>) -> Set<Seq<u8>> {
    Set::new(|k: Seq<u8>| m.contains_key(k) && m[k] is Some)
}

/// A list of the records of a map has as many records as the map holds: the
/// count of a drained batch is the number of hashes that had a record pending.
pub proof fn lemma_lists_present_len<R: Keyed>(records: Seq<R>, m: Map<Seq<u8>, Option<R>>)
    requires
        lists_present(records, m),
    ensures
        present_keys(m).finite(),
        present_keys(m).len() == records.len(),
{
    let keys = records.map_values(|r: R| r.key());
    assert(keys.no_duplicates()) by {
        assert forall|i: int, j: int|
            0 <= i < keys.len() && 0 <= j < keys.len() && i != j implies keys[i] != keys[j] by {
            if i < j {
                assert(records[i].key() != records[j].key());
            } else {
                assert(records[j].key() != records[i].key());
            }
        }
    }
    keys.unique_seq_to_set();
    seq_to_set_is_finite(keys);
    assert forall|k: Seq<u8>| keys.to_set().contains(k) == present_keys(m).contains(k) by {
        if keys.to_set().contains(k) {
            let i = choose|i: int| 0 <= i < keys.len() && keys[i] == k;
            assert(m.contains_key(records[i].key()));
        }
        if present_keys(m).contains(k) {
            let i = choose|i: int| 0 <= i < records.len() && (#[trigger] records[i]).key() == k;
            assert(keys[i] == k);
        }
    }
    assert(keys.to_set() =~= present_keys(m));
}

/// The records among the values of `entries`, in order.
pub open spec fn present<R>(entries: Seq<Entry<Option<R>>>) -> Seq<R>
    decreases entries.len(),
{
    if entries.len() == 0 {
        Seq::empty()
    } else {
        match entries.last().value {
            Some(r) => present(entries.drop_last()).push(r),
            None => present(entries.drop_last()),
        }
    }
}

/// Every record of `present(entries)` is the value of an entry, and every entry
/// that holds a record contributes it.
proof fn lemma_present_members<R>(entries: Seq<Entry<Option<R>>>)
    ensures
        forall|j: int|
            0 <= j < present(entries).len() ==> exists|i: int|
                0 <= i < entries.len() && (#[trigger] entries[i]).value == Some(
                    #[trigger] present(entries)[j],
                ),
        forall|i: int|
            0 <= i < entries.len() && (#[trigger] entries[i]).value is Some ==> exists|j: int|
                0 <= j < present(entries).len() && Some(#[trigger] present(entries)[j])
                    == entries[i].value,
    decreases entries.len(),
{
    if entries.len() > 0 {
        let head = entries.drop_last();
        let last = entries.last();
        let p = present(entries);
        let ph = present(head);
        lemma_present_members(head);
        assert forall|j: int| 0 <= j < p.len() implies exists|i: int|
            0 <= i < entries.len() && (#[trigger] entries[i]).value == Some(#[trigger] p[j]) by {
            if j < ph.len() {
                assert(p[j] == ph[j]);
                let i = choose|i: int|
                    0 <= i < head.len() && (#[trigger] head[i]).value == Some(ph[j]);
                assert(entries[i] == head[i]);
            } else {
                assert(entries[entries.len() - 1].value == Some(p[j]));
            }
        }
        assert forall|i: int|
            0 <= i < entries.len() && (#[trigger] entries[i]).value is Some implies exists|j: int|
            0 <= j < p.len() && Some(#[trigger] p[j]) == entries[i].value by {
            if i < head.len() {
                assert(entries[i] == head[i]);
                let j = choose|j: int| 0 <= j < ph.len() && Some(#[trigger] ph[j]) == head[i].value;
                assert(p[j] == ph[j]);
            } else {
                assert(Some(p[p.len() - 1]) == entries[i].value);
            }
        }
    }
}

/// Where the entries enumerate a map in which every record sits under its own
/// hash, the records among them list the records of that map.
proof fn lemma_present_lists<R: Keyed>(entries: Seq<Entry<Option<R>>>, m: Map<Seq<u8>, Option<R>>)
    requires
        enumerates(entries, m),
        self_keyed(m),
    ensures
        lists_present(present(entries), m),
    decreases entries.len(),
{
    let p = present(entries);
    lemma_present_members(entries);
    assert forall|i: int| 0 <= i < p.len() implies m.contains_key((#[trigger] p[i]).key())
        && m[p[i].key()] == Some(p[i]) by {
        let e = choose|e: int|
            0 <= e < entries.len() && (#[trigger] entries[e]).value == Some(p[i]);
        assert(m.contains_key(entries[e].key@));
    }
    assert forall|k: Seq<u8>| #[trigger] m.contains_key(k) && m[k] is Some implies exists|i: int|
        0 <= i < p.len() && (#[trigger] p[i]).key() == k by {
        let e = position_of(entries, k);
        assert(entries[e].key@ == k);
        assert(entries[e].value is Some);
        let j = choose|j: int| 0 <= j < p.len() && Some(#[trigger] p[j]) == entries[e].value;
        assert(p[j].key() == k);
    }
    if entries.len() > 0 {
        let head = entries.drop_last();
        let last = entries.last();
        let rest = m.remove(last.key@);
        assert(entries[entries.len() - 1] == last);
        assert(enumerates(head, rest)) by {
            assert forall|i: int| 0 <= i < head.len() implies rest.contains_key(
                (#[trigger] head[i]).key@,
            ) && rest[head[i].key@] == head[i].value by {
                assert(head[i] == entries[i]);
                assert(entries[i].key@ != entries[entries.len() - 1].key@);
            }
            assert forall|k: Seq<u8>| #[trigger] rest.contains_key(k) implies has_key(head, k) by {
                assert(m.contains_key(k));
                let q = position_of(entries, k);
                assert(entries[q].key@ == k);
                assert(head[q].key@ == k);
            }
        }
        assert(self_keyed(rest)) by {
            assert forall|k: Seq<u8>| #[trigger] rest.contains_key(k) implies (rest[k] matches Some(
                r,
            ) ==> r.key() == k) by {
                assert(m.contains_key(k));
            }
        }
        lemma_present_lists(head, rest);
        let ph = present(head);
        assert forall|i: int, j: int| 0 <= i < j < p.len() implies (#[trigger] p[i]).key() != (
        #[trigger] p[j]).key() by {
            if j < ph.len() {
                assert(ph[i] == p[i] && ph[j] == p[j]);
            } else {
                assert(p[i] == ph[i]);
                assert(rest.contains_key(ph[i].key()));
                assert(m.contains_key(last.key@));
                assert(p[j].key() == last.key@);
            }
        }
    }
}

/// The pending writes of one record kind.
pub struct Pending<R> {
    table: RecordTable<Option<R>>,
}

impl<R: HashKeyed> Pending<R> {
    /// No hash is held twice, and every record sits under its own hash.
    pub closed spec fn wf(&self) -> bool {
        self.table.wf() && self_keyed(self.table@)
    }

    /// The map from hash to what shadows the base value under that hash: a
    /// record, or nothing at all.
    pub closed spec fn view(&self) -> Map<Seq<u8>, Option<R>> {
        self.table@
    }

    /// What well-formedness says of the view.
    pub proof fn lemma_self_keyed(&self)
        requires
            self.wf(),
        ensures
            self_keyed(self@),
    {
    }

    /// No pending writes.
    pub fn new() -> (pending: Self)
        ensures
            pending.wf(),
            pending@ == Map::<Seq<u8>, Option<R>>::empty(),
    {
        Pending { table: RecordTable::new() }
    }

    /// What is pending under `hash`, if anything is.
    pub fn get(&self, hash: &[u8; 32]) -> (r: Option<&Option<R>>)
        requires
            self.wf(),
        ensures
            match r {
                Some(v) => self@.contains_key(hash@) && *v == self@[hash@],
                None => !self@.contains_key(hash@),
            },
    {
        self.table.get(hash)
    }

    /// Makes `record` pending under its hash, in place of what was pending there.
    pub fn put(&mut self, record: R)
        requires
            old(self).wf(),
        ensures
            final(self).wf(),
            final(self)@ == old(self)@.insert(record.key(), Some(record)),
    {
        let hash = record.hash();
        self.table.insert(hash, Some(record));
    }

    /// Forgets every pending write.
    pub fn clear(&mut self)
        ensures
            final(self).wf(),
            final(self)@ == Map::<Seq<u8>, Option<R>>::empty(),
    {
        self.table.clear();
    }

    /// Forgets every pending write and hands out the pending records, each once.
    /// The order in which they come is not promised.
    pub fn drain(&mut self) -> (records: Vec<R>)
        requires
            old(self).wf(),
        ensures
            final(self).wf(),
            final(self)@ == Map::<Seq<u8>, Option<R>>::empty(),
            lists_present(records@, old(self)@),
    {
        let entries = self.table.drain();
        let ghost all = entries@;
        let mut records: Vec<R> = Vec::new();
        for entry in it: entries
            invariant
                it.seq() == all,
                records@ == present(all.subrange(0, it.index() as int)),
        {
            let ghost done = all.subrange(0, it.index() as int);
            let ghost next = all.subrange(0, it.index() + 1);
            assert(next.drop_last() =~= done);
            assert(next.last() == entry);
            if let Some(record) = entry.value {
                records.push(record);
            }
        }
        assert(all.subrange(0, all.len() as int) =~= all);
        proof {
            lemma_present_lists(all, old(self)@);
        }
        records
    }
}

} // verus!
