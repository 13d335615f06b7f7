use merkle_session::overlay::{CommitSessionResponse, Lookup, OverlayState};
use merkle_session::pending::Pending;
use merkle_session::record::{copy_bytes, hash_eq, DataHashRecord, MerkleRecord};
use merkle_session::table::RecordTable;

fn hash(n: u8) -> [u8; 32] {
    let mut h = [n; 32];
    h[31] = n.wrapping_mul(3);
    h
}

fn node(n: u8, index: u64) -> MerkleRecord {
    MerkleRecord { index, hash: hash(n), left: Some(hash(n + 1)), right: None, data: Some([n; 32]) }
}

fn payload(n: u8, data: &[u8]) -> DataHashRecord {
    DataHashRecord { hash: hash(n), data: data.to_vec() }
}

#[test]
fn hash_eq_compares_all_bytes() {
    let a = hash(1);
    let mut b = hash(1);
    assert!(hash_eq(&a, &b));
    b[31] ^= 1;
    assert!(!hash_eq(&a, &b));
    let mut c = hash(1);
    c[0] ^= 0x80;
    assert!(!hash_eq(&a, &c));
}

#[test]
fn copy_bytes_copies() {
    assert_eq!(copy_bytes(&vec![]), Vec::<u8>::new());
    assert_eq!(copy_bytes(&vec![3, 1, 2]), vec![3, 1, 2]);
}

#[test]
fn data_record_clone_is_equal() {
    let r = payload(4, &[1, 2, 3]);
    assert_eq!(r.clone(), r);
}

#[test]
fn table_insert_get_replace() {
    let mut t: RecordTable<u32> = RecordTable::new();
    assert_eq!(t.len(), 0);
    assert_eq!(t.get(&hash(1)), None);
    t.insert(hash(1), 10);
    t.insert(hash(2), 20);
    assert_eq!(t.len(), 2);
    assert_eq!(t.get(&hash(1)), Some(&10));
    assert_eq!(t.get(&hash(2)), Some(&20));
    assert_eq!(t.get(&hash(3)), None);
    t.insert(hash(1), 11);
    assert_eq!(t.len(), 2);
    assert_eq!(t.get(&hash(1)), Some(&11));
    assert_eq!(t.get(&hash(2)), Some(&20));
}

#[test]
fn table_drain_hands_out_every_hash_once() {
    let mut t: RecordTable<u32> = RecordTable::new();
    t.insert(hash(1), 10);
    t.insert(hash(2), 20);
    t.insert(hash(1), 11);
    t.insert(hash(3), 30);
    let entries = t.drain();
    let mut got: Vec<([u8; 32], u32)> = entries.iter().map(|e| (e.key, e.value)).collect();
    got.sort();
    assert_eq!(got, vec![(hash(1), 11), (hash(2), 20), (hash(3), 30)]);
    assert_eq!(t.len(), 0);
    assert_eq!(t.get(&hash(1)), None);
}

#[test]
fn table_clear_empties() {
    let mut t: RecordTable<u32> = RecordTable::new();
    t.insert(hash(1), 10);
    t.clear();
    assert_eq!(t.len(), 0);
    assert_eq!(t.get(&hash(1)), None);
}

#[test]
fn pending_put_stores_under_the_records_own_hash() {
    let mut p: Pending<MerkleRecord> = Pending::new();
    p.put(node(1, 5));
    assert_eq!(p.get(&hash(1)), Some(&Some(node(1, 5))));
    assert_eq!(p.get(&hash(2)), None);
    p.put(node(1, 6));
    assert_eq!(p.get(&hash(1)), Some(&Some(node(1, 6))));
    assert_eq!(p.drain(), vec![node(1, 6)]);
    assert_eq!(p.get(&hash(1)), None);
}

#[test]
fn overlay_starts_empty_and_defers_to_the_base() {
    let o = OverlayState::new();
    assert_eq!(o.get_merkle_record(&hash(1)), Lookup::Base);
    assert_eq!(o.get_data_record(&hash(1)), Lookup::Base);
    let d = OverlayState::default();
    assert_eq!(d.get_merkle_record(&hash(1)), Lookup::Base);
}

#[test]
fn overlay_write_shadows_the_hash_written() {
    let mut o = OverlayState::new();
    o.set_merkle_record(node(1, 5));
    o.set_data_record(payload(2, &[9, 8, 7]));
    assert_eq!(o.get_merkle_record(&hash(1)), Lookup::Pending(Some(node(1, 5))));
    assert_eq!(o.get_merkle_record(&hash(2)), Lookup::Base);
    assert_eq!(o.get_data_record(&hash(2)), Lookup::Pending(Some(payload(2, &[9, 8, 7]))));
    assert_eq!(o.get_data_record(&hash(1)), Lookup::Base);
}

#[test]
fn overlay_last_write_under_a_hash_wins() {
    let mut o = OverlayState::new();
    o.set_data_record(payload(2, &[1]));
    o.set_data_record(payload(2, &[2, 2]));
    assert_eq!(o.get_data_record(&hash(2)), Lookup::Pending(Some(payload(2, &[2, 2]))));
    o.set_merkle_records(&vec![node(1, 1), node(3, 3), node(1, 7)]);
    assert_eq!(o.get_merkle_record(&hash(1)), Lookup::Pending(Some(node(1, 7))));
    assert_eq!(o.get_merkle_record(&hash(3)), Lookup::Pending(Some(node(3, 3))));
}

#[test]
fn overlay_reads_do_not_add_to_it() {
    let mut o = OverlayState::new();
    let _ = o.get_merkle_record(&hash(1));
    let _ = o.get_data_record(&hash(1));
    let batch = o.drain();
    assert!(batch.merkle_records.is_empty());
    assert!(batch.data_records.is_empty());
}

#[test]
fn overlay_clear_forgets_everything() {
    let mut o = OverlayState::new();
    o.set_merkle_record(node(1, 5));
    o.set_data_record(payload(2, &[9]));
    o.clear();
    assert_eq!(o.get_merkle_record(&hash(1)), Lookup::Base);
    assert_eq!(o.get_data_record(&hash(2)), Lookup::Base);
}

#[test]
fn overlay_drain_hands_out_each_record_once_and_empties() {
    let mut o = OverlayState::new();
    o.set_merkle_record(node(1, 1));
    o.set_merkle_record(node(2, 2));
    o.set_merkle_record(node(1, 3));
    o.set_data_record(payload(5, &[1]));
    o.set_data_record(payload(6, &[2]));
    o.set_data_record(payload(5, &[3]));
    let mut batch = o.drain();
    batch.merkle_records.sort_by_key(|r| r.hash);
    batch.data_records.sort_by_key(|r| r.hash);
    assert_eq!(batch.merkle_records, vec![node(1, 3), node(2, 2)]);
    assert_eq!(batch.data_records, vec![payload(5, &[3]), payload(6, &[2])]);
    assert_eq!(batch.response(), CommitSessionResponse { merkle_records: 2, data_records: 2 });
    assert_eq!(o.get_merkle_record(&hash(1)), Lookup::Base);
    assert_eq!(o.get_data_record(&hash(5)), Lookup::Base);
    let again = o.drain();
    assert_eq!(again.response(), CommitSessionResponse { merkle_records: 0, data_records: 0 });
}

#[test]
fn table_tells_hashes_apart_that_start_alike() {
    let mut t: RecordTable<u32> = RecordTable::new();
    let mut keys = Vec::new();
    for n in 0..40u8 {
        let mut k = [0xabu8; 32];
        k[8 + (n as usize % 24)] = n;
        k[31] = n / 24;
        keys.push(k);
    }
    for (i, k) in keys.iter().enumerate() {
        t.insert(*k, i as u32);
    }
    assert_eq!(t.len(), 40);
    for (i, k) in keys.iter().enumerate() {
        assert_eq!(t.get(k), Some(&(i as u32)));
    }
    let mut other = [0xabu8; 32];
    other[30] = 0xcd;
    assert_eq!(t.get(&other), None);
    t.insert(keys[17], 1700);
    assert_eq!(t.len(), 40);
    assert_eq!(t.get(&keys[17]), Some(&1700));
    assert_eq!(t.get(&keys[16]), Some(&16));
}

#[test]
fn table_holds_many_hashes() {
    let mut t: RecordTable<u64> = RecordTable::new();
    let key = |n: u64| -> [u8; 32] {
        let mut k = [0u8; 32];
        k[..8].copy_from_slice(&(n % 97).to_le_bytes());
        k[8..16].copy_from_slice(&n.to_be_bytes());
        k
    };
    for n in 0..2000u64 {
        t.insert(key(n), n);
    }
    for n in (0..2000u64).step_by(3) {
        t.insert(key(n), n + 1_000_000);
    }
    assert_eq!(t.len(), 2000);
    for n in 0..2000u64 {
        let expected = if n % 3 == 0 { n + 1_000_000 } else { n };
        assert_eq!(t.get(&key(n)), Some(&expected));
    }
    assert_eq!(t.get(&key(2000)), None);
    let entries = t.drain();
    assert_eq!(entries.len(), 2000);
    let mut keys: Vec<[u8; 32]> = entries.iter().map(|e| e.key).collect();
    keys.sort();
    keys.dedup();
    assert_eq!(keys.len(), 2000);
    assert!(entries.iter().all(|e| e.key == key(u64::from_be_bytes(e.key[8..16].try_into().unwrap()))));
    assert_eq!(t.len(), 0);
    t.insert(key(1), 9);
    assert_eq!(t.get(&key(1)), Some(&9));
    assert_eq!(t.get(&key(2)), None);
}
