//! The two kinds of record that the store holds, both keyed by a 32-byte hash.
use vstd::prelude::*;

verus! {

/// One node of the tree, stored under its own content hash. The library reads the
/// hash and carries the rest through unchanged.
#[derive(Clone, Copy, Debug, PartialEq, Eq)]
pub struct MerkleRecord {
    pub index: u64,
    pub hash: [u8; 32],
    pub left: Option<[u8; 32]>,
    pub right: Option<[u8; 32]>,
    pub data: Option<[u8; 32]>,
}

/// One payload: a hash key and the bytes stored under it.
#[derive(Debug, PartialEq, Eq)]
pub struct DataHashRecord {
    pub hash: [u8; 32],
    pub data: Vec<u8>,
}

/// What a [`DataHashRecord`] holds.
pub struct DataRecordModel {
    pub hash: Seq<u8>,
    pub data: Seq<u8>,
}

impl View for DataHashRecord {
    type V = DataRecordModel;

    open spec fn view(&self) -> DataRecordModel {
        DataRecordModel { hash: self.hash@, data: self.data@ }
    }
}

impl Clone for DataHashRecord {
    fn clone(&self) -> (copy: Self)
        ensures
            copy@ == self@,
    {
        DataHashRecord { hash: self.hash, data: copy_bytes(&self.data) }
    }
}

/// What an optional payload record holds.
pub open spec fn data_option_view(record: Option<DataHashRecord>) -> Option<DataRecordModel> {
    match record {
        Some(r) => Some(r@),
        None => None,
    }
}

/// A fresh vector with the same bytes.
pub fn copy_bytes(bytes: &Vec<u8>) -> (copy: Vec<u8>)
    ensures
        copy@ == bytes@,
{
    let mut copy: Vec<u8> = Vec::new();
    let mut i: usize = 0;
    while i < bytes.len()
        invariant
            i <= bytes.len(),
            copy@ == bytes@.subrange(0, i as int),
        decreases bytes.len() - i,
    {
        copy.push(bytes[i]);
        assert(copy@ =~= bytes@.subrange(0, i + 1));
        i += 1;
    }
    assert(copy@ =~= bytes@);
    copy
}

/// Whether two hashes hold the same bytes.
pub fn hash_eq(a: &[u8; 32], b: &[u8; 32]) -> (same: bool)
    ensures
        same == (a@ == b@),
{
    let mut i: usize = 0;
    while i < 32
        invariant
            i <= 32,
            forall|j: int| 0 <= j < i ==> a@[j] == b@[j],
        decreases 32 - i,
    {
        if a[i] != b[i] {
            return false;
        }
        i += 1;
    }
    assert(a@ =~= b@);
    true
}

} // verus!
