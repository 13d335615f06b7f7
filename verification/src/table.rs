//! A table from 32-byte hashes to values.
//!
//! The entries are kept in a list in which no hash occurs twice. An index from
//! the first eight bytes of a hash to the positions of the entries that start
//! with them keeps a lookup from walking the whole list.
use crate::record::hash_eq;
use std::collections::HashMap;
use vstd::bytes::{spec_u64_from_le_bytes, u64_from_le_bytes};
use vstd::prelude::*;
use vstd::slice::slice_subrange;
use vstd::std_specs::hash::*;

verus! {

broadcast use vstd::std_specs::hash::group_hash_axioms;

/// One hash and the value stored under it.
pub struct Entry<V> {
    pub key: [u8; 32],
    pub value: V,
}

/// Some entry of `entries` has the key `key`.
pub open spec fn has_key<V>(entries: Seq<Entry<V>>, key: Seq<u8>) -> bool {
    exists|i: int| 0 <= i < entries.len() && (#[trigger] entries[i]).key@ == key
}

/// The position of an entry with the key `key`.
pub open spec fn position_of<V>(entries: Seq<Entry<V>>, key: Seq<u8>) -> int {
    choose|i: int| 0 <= i < entries.len() && (#[trigger] entries[i]).key@ == key
}

/// No two entries have the same key.
pub open spec fn distinct_keys<V>(entries: Seq<Entry<V>>) -> bool {
    forall|i: int, j: int|
        0 <= i < j < entries.len() ==> (#[trigger] entries[i]).key@ != (#[trigger] entries[j]).key@
}

/// The map that a list of entries with distinct keys stands for.
pub open spec fn entries_map<V>(entries: Seq<Entry<V>>) -> Map<Seq<u8>, V> {
    Map::new(|k: Seq<u8>| has_key(entries, k), |k: Seq<u8>| entries[position_of(entries, k)].value)
}

/// `entries` lists `m` without repetition: every key of `m` once, with its value.
pub open spec fn enumerates<V>(entries: Seq<Entry<V>>, m: Map<Seq<u8>, V>) -> bool {
    &&& distinct_keys(entries)
    &&& forall|i: int|
        0 <= i < entries.len() ==> m.contains_key((#[trigger] entries[i]).key@)
            && m[entries[i].key@] == entries[i].value
    &&& forall|k: Seq<u8>| #[trigger] m.contains_key(k) ==> has_key(entries, k)
}

/// In a list with distinct keys, the entry at `i` is the one found for its key.
pub proof fn lemma_position_unique<V>(entries: Seq<Entry<V>>, i: int)
    requires
        distinct_keys(entries),
        0 <= i < entries.len(),
    ensures
        has_key(entries, entries[i].key@),
        position_of(entries, entries[i].key@) == i,
        entries_map(entries).contains_key(entries[i].key@),
        entries_map(entries)[entries[i].key@] == entries[i].value,
{
    let k = entries[i].key@;
    let p = position_of(entries, k);
    if p < i {
        assert(entries[p].key@ != entries[i].key@);
    } else if i < p {
        assert(entries[i].key@ != entries[p].key@);
    }
}

/// A list with distinct keys lists its own map.
pub proof fn lemma_entries_enumerate<V>(entries: Seq<Entry<V>>)
    requires
        distinct_keys(entries),
    ensures
        enumerates(entries, entries_map(entries)),
{
    assert forall|i: int| 0 <= i < entries.len() implies entries_map(entries).contains_key(
        (#[trigger] entries[i]).key@,
    ) && entries_map(entries)[entries[i].key@] == entries[i].value by {
        lemma_position_unique(entries, i);
    }
}

/// A list that enumerates a finite map is as long as the map is large.
pub proof fn lemma_enumeration_len<V>(entries: Seq<Entry<V>>, m: Map<Seq<u8>, V>)
    requires
        enumerates(entries, m),
    ensures
        m.dom().finite(),
        m.dom().len() == entries.len(),
    decreases entries.len(),
{
    if entries.len() == 0 {
        assert(m.dom() =~= Set::<Seq<u8>>::empty());
    } else {
        let last = entries.last();
        let head = entries.drop_last();
        let rest = m.remove(last.key@);
        assert(distinct_keys(head));
        assert forall|i: int| 0 <= i < head.len() implies rest.contains_key(
            (#[trigger] head[i]).key@,
        ) && rest[head[i].key@] == head[i].value by {
            assert(head[i] == entries[i]);
            assert(entries[i].key@ != entries[entries.len() - 1].key@);
        }
        assert forall|k: Seq<u8>| #[trigger] rest.contains_key(k) implies has_key(head, k) by {
            assert(m.contains_key(k));
            let p = position_of(entries, k);
            assert(entries[p].key@ == k);
            assert(p < head.len());
            assert(head[p].key@ == k);
        }
        lemma_enumeration_len(head, rest);
        assert(m.contains_key(entries[entries.len() - 1].key@));
        assert(m.dom() =~= rest.dom().insert(last.key@));
    }
}

/// The number under which the index files a hash: its first eight bytes.
spec fn bucket_of(key: Seq<u8>) -> u64 {
    spec_u64_from_le_bytes(key.subrange(0, 8))
}

/// The index reaches every entry: the position of each entry is filed under the
/// number of its hash.
spec fn index_covers<V>(index: Map<u64, Vec<usize>>, entries: Seq<Entry<V>>) -> bool {
    forall|i: int|
        0 <= i < entries.len() ==> index.contains_key(bucket_of((#[trigger] entries[i]).key@))
            && index[bucket_of(entries[i].key@)]@.contains(i as usize)
}

/// The index files nothing but positions of entries.
spec fn index_in_bounds(index: Map<u64, Vec<usize>>, len: nat) -> bool {
    forall|b: u64, j: int|
        index.contains_key(b) && 0 <= j < index[b]@.len() ==> (#[trigger] index[b]@[j]) < len
}

/// A table from 32-byte hashes to values.
pub struct RecordTable<V> {
    entries: Vec<Entry<V>>,
    index: HashMap<u64, Vec<usize>>,
}

fn bucket(key: &[u8; 32]) -> (b: u64)
    ensures
        b == bucket_of(key@),
{
    u64_from_le_bytes(slice_subrange(key.as_slice(), 0, 8))
}

impl<V> RecordTable<V> {
    /// No hash is held twice, and the index reaches every entry.
    pub closed spec fn wf(&self) -> bool {
        &&& distinct_keys(self.entries@)
        &&& index_covers(self.index@, self.entries@)
        &&& index_in_bounds(self.index@, self.entries@.len())
    }

    /// The map from hash to value that the table stands for.
    pub closed spec fn view(&self) -> Map<Seq<u8>, V> {
        entries_map(self.entries@)
    }

    /// The empty table.
    pub fn new() -> (table: Self)
        ensures
            table.wf(),
            table@ == Map::<Seq<u8>, V>::empty(),
    {
        let table = RecordTable { entries: Vec::new(), index: HashMap::new() };
        assert(table@ =~= Map::<Seq<u8>, V>::empty());
        table
    }

    /// The number of hashes held.
    pub fn len(&self) -> (n: usize)
        requires
            self.wf(),
        ensures
            self@.dom().finite(),
            n == self@.dom().len(),
    {
        proof {
            lemma_entries_enumerate(self.entries@);
            lemma_enumeration_len(self.entries@, self@);
        }
        self.entries.len()
    }

    fn find(&self, key: &[u8; 32]) -> (r: Option<usize>)
        requires
            self.wf(),
        ensures
            match r {
                Some(i) => i < self.entries@.len() && self.entries@[i as int].key@ == key@,
                None => !has_key(self.entries@, key@),
            },
    {
        let b = bucket(key);
        let held = self.entries.len();
        match self.index.get(&b) {
            None => {
                proof {
                    if has_key(self.entries@, key@) {
                        let i = position_of(self.entries@, key@);
                        assert(self.entries@[i].key@ == key@);
                    }
                }
                None
            },
            Some(positions) => {
                let mut j: usize = 0;
                while j < positions.len()
                    invariant
                        j <= positions@.len(),
                        self.index@.contains_key(b),
                        self.index@[b] == *positions,
                        index_in_bounds(self.index@, self.entries@.len()),
                        forall|k: int|
                            0 <= k < j ==> self.entries@[(#[trigger] positions@[k]) as int].key@
                                != key@,
                    decreases positions@.len() - j,
                {
                    let p = positions[j];
                    if hash_eq(&self.entries[p].key, key) {
                        return Some(p);
                    }
                    j += 1;
                }
                proof {
                    if has_key(self.entries@, key@) {
                        let i = position_of(self.entries@, key@);
                        assert(self.entries@[i].key@ == key@);
                        assert(i < held);
                        assert(positions@.contains(i as usize));
                        let k = choose|k: int|
                            0 <= k < positions@.len() && positions@[k] == i as usize;
                        assert(self.entries@[positions@[k] as int].key@ != key@);
                    }
                }
                None
            },
        }
    }

    /// The value stored under `key`, if there is one.
    pub fn get(&self, key: &[u8; 32]) -> (r: Option<&V>)
        requires
            self.wf(),
        ensures
            match r {
                Some(v) => self@.contains_key(key@) && *v == self@[key@],
                None => !self@.contains_key(key@),
            },
    {
        match self.find(key) {
            Some(i) => {
                proof {
                    lemma_position_unique(self.entries@, i as int);
                }
                Some(&self.entries[i].value)
            },
            None => None,
        }
    }

    /// Files the position of the next entry under the number of its hash.
    fn file_next(&mut self, key: &[u8; 32])
        requires
            index_covers(old(self).index@, old(self).entries@),
            index_in_bounds(old(self).index@, old(self).entries@.len()),
        ensures
            final(self).entries == old(self).entries,
            index_covers(final(self).index@, old(self).entries@),
            index_in_bounds(final(self).index@, old(self).entries@.len() + 1),
            final(self).index@.contains_key(bucket_of(key@)),
            final(self).index@[bucket_of(key@)]@.contains(old(self).entries@.len() as usize),
    {
        let b = bucket(key);
        let next = self.entries.len();
        let ghost before = self.index@;
        let mut positions = match self.index.remove(&b) {
            Some(positions) => positions,
            None => Vec::new(),
        };
        let ghost had = positions@;
        positions.push(next);
        let ghost filed = positions@;
        self.index.insert(b, positions);
        proof {
            assert(filed[had.len() as int] == next);
            assert forall|i: int| 0 <= i < self.entries@.len() implies self.index@.contains_key(
                bucket_of((#[trigger] self.entries@[i]).key@),
            ) && self.index@[bucket_of(self.entries@[i].key@)]@.contains(i as usize) by {
                let bi = bucket_of(self.entries@[i].key@);
                assert(before.contains_key(bi) && before[bi]@.contains(i as usize));
                if bi == b {
                    let k = choose|k: int| 0 <= k < had.len() && had[k] == i as usize;
                    assert(filed[k] == i as usize);
                }
            }
            assert forall|c: u64, j: int|
                self.index@.contains_key(c) && 0 <= j < self.index@[c]@.len() implies (
            #[trigger] self.index@[c]@[j]) < self.entries@.len() + 1 by {
                if c == b {
                    if j < had.len() {
                        assert(filed[j] == had[j]);
                        assert(before.contains_key(b));
                        assert(before[b]@[j] < self.entries@.len());
                    }
                } else {
                    assert(before.contains_key(c));
                    assert(before[c]@[j] < self.entries@.len());
                }
            }
        }
    }

    /// Stores `value` under `key`, in place of what was stored there before.
    pub fn insert(&mut self, key: [u8; 32], value: V)
        requires
            old(self).wf(),
        ensures
            final(self).wf(),
            final(self)@ == old(self)@.insert(key@, value),
    {
        let ghost before = self.entries@;
        match self.find(&key) {
            Some(i) => {
                self.entries[i] = Entry { key, value };
                let ghost after = self.entries@;
                proof {
                    assert(distinct_keys(after)) by {
                        assert forall|a: int, b: int| 0 <= a < b < after.len() implies (
                        #[trigger] after[a]).key@ != (#[trigger] after[b]).key@ by {
                            assert(before[a].key@ != before[b].key@);
                        }
                    }
                    assert(index_covers(self.index@, after)) by {
                        assert forall|a: int| 0 <= a < after.len() implies self.index@.contains_key(
                            bucket_of((#[trigger] after[a]).key@),
                        ) && self.index@[bucket_of(after[a].key@)]@.contains(a as usize) by {
                            assert(before[a].key@ == after[a].key@);
                        }
                    }
                    assert forall|k: Seq<u8>| has_key(after, k) == has_key(before, k) by {
                        if has_key(before, k) {
                            let p = position_of(before, k);
                            assert(after[p].key@ == k);
                        }
                        if has_key(after, k) {
                            let p = position_of(after, k);
                            assert(before[p].key@ == k);
                        }
                    }
                    assert forall|k: Seq<u8>| has_key(after, k) implies entries_map(after)[k]
                        == entries_map(before).insert(key@, value)[k] by {
                        let p = position_of(after, k);
                        lemma_position_unique(after, p);
                        lemma_position_unique(before, p);
                    }
                    lemma_position_unique(before, i as int);
                    assert(entries_map(after) =~= entries_map(before).insert(key@, value));
                }
            },
            None => {
                self.file_next(&key);
                self.entries.push(Entry { key, value });
                let ghost after = self.entries@;
                proof {
                    assert(distinct_keys(after)) by {
                        assert forall|a: int, b: int| 0 <= a < b < after.len() implies (
                        #[trigger] after[a]).key@ != (#[trigger] after[b]).key@ by {
                            assert(after[a] == before[a]);
                            if b < before.len() {
                                assert(after[b] == before[b]);
                            }
                        }
                    }
                    assert(index_covers(self.index@, after)) by {
                        assert forall|a: int| 0 <= a < after.len() implies self.index@.contains_key(
                            bucket_of((#[trigger] after[a]).key@),
                        ) && self.index@[bucket_of(after[a].key@)]@.contains(a as usize) by {
                            if a < before.len() {
                                assert(after[a] == before[a]);
                            }
                        }
                    }
                    assert forall|k: Seq<u8>| has_key(after, k) == (has_key(before, k) || k
                        == key@) by {
                        if has_key(before, k) {
                            let p = position_of(before, k);
                            assert(after[p].key@ == k);
                        }
                        if k == key@ {
                            assert(after[before.len() as int].key@ == k);
                        }
                        if has_key(after, k) {
                            let p = position_of(after, k);
                            if p < before.len() {
                                assert(before[p].key@ == k);
                            }
                        }
                    }
                    assert forall|k: Seq<u8>| has_key(after, k) implies entries_map(after)[k]
                        == entries_map(before).insert(key@, value)[k] by {
                        let p = position_of(after, k);
                        lemma_position_unique(after, p);
                        if p < before.len() {
                            assert(after[p] == before[p]);
                            lemma_position_unique(before, p);
                        }
                    }
                    assert(entries_map(after) =~= entries_map(before).insert(key@, value));
                }
            },
        }
    }

    /// Empties the table.
    pub fn clear(&mut self)
        ensures
            final(self).wf(),
            final(self)@ == Map::<Seq<u8>, V>::empty(),
    {
        self.entries.clear();
        self.index.clear();
        assert(self@ =~= Map::<Seq<u8>, V>::empty());
    }

    /// Empties the table and hands out what it held: every hash once, with its
    /// value. The order in which they come is not promised.
    pub fn drain(&mut self) -> (entries: Vec<Entry<V>>)
        requires
            old(self).wf(),
        ensures
            final(self).wf(),
            final(self)@ == Map::<Seq<u8>, V>::empty(),
            enumerates(entries@, old(self)@),
    {
        let mut entries: Vec<Entry<V>> = Vec::new();
        std::mem::swap(&mut entries, &mut self.entries);
        self.index.clear();
        proof {
            lemma_entries_enumerate(entries@);
            assert(self@ =~= Map::<Seq<u8>, V>::empty());
        }
        entries
    }
}

} // verus!
