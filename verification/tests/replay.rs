use merkle_session::batch::{Batch, Step};
use merkle_session::ops::{leaf_value, record_limbs, LeafQuery, LeafUpdate, RecordQuery, RecordUpdate};
use merkle_session::record::DataHashRecord;
use merkle_session::service::{SessionDB, Target};
use merkle_session::{
    apply_txs, apply_txs_final, begin_session, connected, get_leaf, get_record, update_leaf,
    update_record, ApplyLeafWrite, ApplyRecordUpdate, ApplyTxTrace, ErrorKind, MerkleService,
};

fn hash(n: u8) -> [u8; 32] {
    [n; 32]
}

fn strings(items: &[&str]) -> Vec<String> {
    items.iter().map(|s| s.to_string()).collect()
}

fn write(index: &str, n: u8) -> ApplyLeafWrite {
    ApplyLeafWrite { index: index.to_string(), data: vec![n; 32] }
}

fn update(n: u8, limbs: &[&str]) -> ApplyRecordUpdate {
    ApplyRecordUpdate { hash: vec![n; 32], data: strings(limbs) }
}

fn opened() -> MerkleService {
    let mut service = MerkleService::new();
    connected(&mut service, "db".to_string());
    service
}

fn two_traces() -> Vec<ApplyTxTrace> {
    vec![
        ApplyTxTrace { writes: vec![write("0", 1), write("7", 2)], update_records: vec![update(9, &["1", "2"])] },
        ApplyTxTrace { writes: vec![write("7", 3)], update_records: vec![update(8, &[]), update(9, &["3"])] },
    ]
}

/// A toy engine: the state is the list of changes made, the root a digest of it.
struct Engine {
    log: Vec<String>,
}

impl Engine {
    fn root(&self) -> [u8; 32] {
        let mut r = [0u8; 32];
        for (i, entry) in self.log.iter().enumerate() {
            for (j, b) in entry.bytes().enumerate() {
                let k = (i * 7 + j) % 32;
                r[k] = r[k].wrapping_mul(31).wrapping_add(b).wrapping_add(i as u8);
            }
        }
        r
    }

    fn run(&mut self, batch: &Batch) -> Vec<[u8; 32]> {
        let mut roots = Vec::new();
        for step in &batch.steps {
            match step {
                Step::UpdateRecord(r) => self.log.push(format!("record {:?} {:?}", r.hash[0], r.data)),
                Step::UpdateLeaf { index, data } => self.log.push(format!("leaf {} {}", index, data[0])),
                Step::EmitRoot => roots.push(self.root()),
            }
        }
        roots
    }
}

#[test]
fn apply_txs_lays_out_updates_then_writes_then_a_root_per_trace() {
    let service = opened();
    let batch = apply_txs(&service, &hash(4), &two_traces(), None).unwrap();
    assert_eq!(batch.target, Target::Base);
    assert_eq!(batch.root, hash(4));
    assert_eq!(
        batch.steps,
        vec![
            Step::UpdateRecord(DataHashRecord { hash: hash(9), data: vec![1, 0, 0, 0, 0, 0, 0, 0, 2, 0, 0, 0, 0, 0, 0, 0] }),
            Step::UpdateLeaf { index: 0, data: [1; 32] },
            Step::UpdateLeaf { index: 7, data: [2; 32] },
            Step::EmitRoot,
            Step::UpdateRecord(DataHashRecord { hash: hash(8), data: vec![] }),
            Step::UpdateRecord(DataHashRecord { hash: hash(9), data: vec![3, 0, 0, 0, 0, 0, 0, 0] }),
            Step::UpdateLeaf { index: 7, data: [3; 32] },
            Step::EmitRoot,
        ]
    );
}

#[test]
fn apply_txs_final_lays_out_the_same_changes_and_one_root() {
    let service = opened();
    let each = apply_txs(&service, &hash(4), &two_traces(), None).unwrap();
    let last = apply_txs_final(&service, &hash(4), &two_traces(), None).unwrap();
    let changes = |b: &Batch| -> Vec<String> {
        b.steps.iter().filter(|s| **s != Step::EmitRoot).map(|s| format!("{:?}", s)).collect()
    };
    assert_eq!(changes(&each), changes(&last));
    assert_eq!(last.steps.iter().filter(|s| **s == Step::EmitRoot).count(), 1);
    assert_eq!(last.steps.last(), Some(&Step::EmitRoot));
    assert_eq!(each.steps.iter().filter(|s| **s == Step::EmitRoot).count(), 2);
}

#[test]
fn final_root_is_the_last_of_the_per_trace_roots() {
    let service = opened();
    let each = apply_txs(&service, &hash(4), &two_traces(), None).unwrap();
    let last = apply_txs_final(&service, &hash(4), &two_traces(), None).unwrap();
    let mut a = Engine { log: Vec::new() };
    let mut b = Engine { log: Vec::new() };
    let roots = a.run(&each);
    let finals = b.run(&last);
    assert_eq!(roots.len(), 2);
    assert_eq!(finals.len(), 1);
    assert_eq!(roots[1], finals[0]);
    assert_ne!(roots[0], roots[1]);
    assert_eq!(a.log, b.log);

    let mut first = two_traces();
    first.truncate(1);
    let first_only = apply_txs_final(&service, &hash(4), &first, None).unwrap();
    let mut c = Engine { log: Vec::new() };
    assert_eq!(c.run(&first_only), vec![roots[0]]);
}

#[test]
fn an_empty_batch_yields_no_root_per_trace_and_the_start_root_as_final() {
    let service = opened();
    let each = apply_txs(&service, &hash(4), &Vec::new(), None).unwrap();
    assert!(each.steps.is_empty());
    let last = apply_txs_final(&service, &hash(4), &Vec::new(), None).unwrap();
    assert_eq!(last.steps, vec![Step::EmitRoot]);
    assert_eq!(last.root, hash(4));
}

#[test]
fn a_trace_without_changes_still_yields_its_root() {
    let service = opened();
    let txs = vec![ApplyTxTrace { writes: vec![], update_records: vec![] }];
    assert_eq!(apply_txs(&service, &hash(4), &txs, None).unwrap().steps, vec![Step::EmitRoot]);
}

#[test]
fn a_batch_in_a_session_is_pointed_at_the_session() {
    let mut service = opened();
    let token = begin_session(&mut service);
    let batch = apply_txs(&service, &hash(4), &two_traces(), Some(&token)).unwrap();
    assert_eq!(batch.target, Target::Session(1));
    let err = apply_txs_final(&service, &hash(4), &two_traces(), Some("s2")).unwrap_err();
    assert_eq!(err.kind, ErrorKind::InvalidArgument);
    assert_eq!(err.message, "unknown session: s2");
}

#[test]
fn one_bad_field_anywhere_refuses_the_whole_batch() {
    let service = opened();
    let mut txs = two_traces();
    txs[1].writes[0].index = "seven".to_string();
    let err = apply_txs(&service, &hash(4), &txs, None).unwrap_err();
    assert_eq!(err.kind, ErrorKind::InvalidArgument);
    assert_eq!(err.message, "invalid index u64 decimal: seven");
    assert_eq!(apply_txs_final(&service, &hash(4), &txs, None).unwrap_err().message, err.message);

    let mut txs = two_traces();
    txs[1].writes[0].data = vec![3; 31];
    assert_eq!(apply_txs(&service, &hash(4), &txs, None).unwrap_err().message, "expected 32 bytes, got 31");

    let mut txs = two_traces();
    txs[1].update_records[1].hash = vec![9; 33];
    assert_eq!(apply_txs(&service, &hash(4), &txs, None).unwrap_err().message, "expected 32 bytes, got 33");

    let mut txs = two_traces();
    txs[0].update_records[0].data = strings(&["1", "-2"]);
    assert_eq!(apply_txs(&service, &hash(4), &txs, None).unwrap_err().message, "invalid data u64 decimal: -2");
}

#[test]
fn batch_checks_come_in_order() {
    let service = MerkleService::new();
    let mut txs = two_traces();
    txs[0].writes[0].index = "x".to_string();
    let err = apply_txs(&service, &[0u8; 5], &txs, Some("s1")).unwrap_err();
    assert_eq!(err.message, "expected 32 bytes, got 5");
    let err = apply_txs(&service, &hash(4), &txs, Some("s1")).unwrap_err();
    assert_eq!(err.kind, ErrorKind::NotInitialized);
    let service = opened();
    let err = apply_txs(&service, &hash(4), &txs, Some("s1")).unwrap_err();
    assert_eq!(err.message, "unknown session: s1");
    let err = apply_txs(&service, &hash(4), &txs, None).unwrap_err();
    assert_eq!(err.message, "invalid index u64 decimal: x");
    // within a trace the payload updates are checked before the leaf writes
    txs[0].update_records[0].hash = vec![];
    let err = apply_txs(&service, &hash(4), &txs, None).unwrap_err();
    assert_eq!(err.message, "expected 32 bytes, got 0");
}

#[test]
fn update_leaf_checks_and_says_what_to_write() {
    let mut service = opened();
    let token = begin_session(&mut service);
    assert_eq!(
        update_leaf(&service, &hash(1), "18446744073709551615", &hash(2), None),
        Ok(LeafUpdate { target: Target::Base, root: hash(1), index: u64::MAX, data: hash(2) })
    );
    assert_eq!(
        update_leaf(&service, &hash(1), "0", &hash(2), Some(&token)),
        Ok(LeafUpdate { target: Target::Session(1), root: hash(1), index: 0, data: hash(2) })
    );
}

#[test]
fn update_leaf_checks_come_in_order() {
    let service = MerkleService::new();
    let e = update_leaf(&service, &[1; 31], "x", &[2; 33], Some("s1")).unwrap_err();
    assert_eq!((e.kind, e.message.as_str()), (ErrorKind::InvalidArgument, "expected 32 bytes, got 31"));
    let e = update_leaf(&service, &hash(1), "x", &[2; 33], Some("s1")).unwrap_err();
    assert_eq!((e.kind, e.message.as_str()), (ErrorKind::InvalidArgument, "invalid index u64 decimal: x"));
    let e = update_leaf(&service, &hash(1), "5", &[2; 33], Some("s1")).unwrap_err();
    assert_eq!((e.kind, e.message.as_str()), (ErrorKind::InvalidArgument, "expected 32 bytes, got 33"));
    let e = update_leaf(&service, &hash(1), "5", &hash(2), Some("s1")).unwrap_err();
    assert_eq!((e.kind, e.message.as_str()), (ErrorKind::NotInitialized, "merkle db not opened"));
    let service = opened();
    let e = update_leaf(&service, &hash(1), "5", &hash(2), Some("s1")).unwrap_err();
    assert_eq!((e.kind, e.message.as_str()), (ErrorKind::InvalidArgument, "unknown session: s1"));
}

#[test]
fn get_leaf_checks_and_says_what_to_read() {
    let service = opened();
    assert_eq!(
        get_leaf(&service, &hash(1), "12", None),
        Ok(LeafQuery { target: Target::Base, root: hash(1), index: 12 })
    );
    assert_eq!(get_leaf(&service, &hash(1)[..31], "12", None).unwrap_err().message, "expected 32 bytes, got 31");
    assert_eq!(get_leaf(&service, &hash(1), "1e3", None).unwrap_err().message, "invalid index u64 decimal: 1e3");
    assert_eq!(get_leaf(&service, &hash(1), "12", Some("s5")).unwrap_err().message, "unknown session: s5");
    assert_eq!(get_leaf(&MerkleService::new(), &hash(1), "12", None).unwrap_err().kind, ErrorKind::NotInitialized);
}

#[test]
fn leaf_value_is_zero_filled_for_a_leaf_never_written() {
    assert_eq!(leaf_value(None), [0u8; 32]);
    assert_eq!(leaf_value(Some(hash(7))), hash(7));
}

#[test]
fn update_record_checks_and_says_what_to_store() {
    let service = opened();
    assert_eq!(
        update_record(&service, &hash(3), &strings(&["1", "2"]), None),
        Ok(RecordUpdate {
            target: Target::Base,
            record: DataHashRecord { hash: hash(3), data: vec![1, 0, 0, 0, 0, 0, 0, 0, 2, 0, 0, 0, 0, 0, 0, 0] },
        })
    );
    assert_eq!(update_record(&service, &[3; 30], &strings(&["x"]), Some("s1")).unwrap_err().message, "expected 32 bytes, got 30");
    assert_eq!(update_record(&service, &hash(3), &strings(&["x"]), Some("s1")).unwrap_err().message, "unknown session: s1");
    assert_eq!(update_record(&service, &hash(3), &strings(&["1", "x"]), None).unwrap_err().message, "invalid data u64 decimal: x");
    assert_eq!(update_record(&MerkleService::new(), &hash(3), &strings(&["x"]), None).unwrap_err().kind, ErrorKind::NotInitialized);
}

#[test]
fn get_record_checks_and_says_what_to_read() {
    let service = opened();
    assert_eq!(get_record(&service, &hash(3), None), Ok(RecordQuery { target: Target::Base, hash: hash(3) }));
    assert_eq!(get_record(&service, &[], None).unwrap_err().message, "expected 32 bytes, got 0");
    assert_eq!(get_record(&service, &hash(3), Some("zz")).unwrap_err().message, "unknown session: zz");
}

#[test]
fn record_limbs_is_empty_for_a_payload_that_is_not_there() {
    assert_eq!(record_limbs(None), Vec::<String>::new());
    let r = DataHashRecord { hash: hash(3), data: vec![1, 0, 0, 0, 0, 0, 0, 0, 2, 0, 0, 0, 0, 0, 0, 0, 5] };
    assert_eq!(record_limbs(Some(&r)), strings(&["1", "2"]));
}

#[test]
fn a_record_updated_in_a_session_reads_back_as_the_same_limbs() {
    let mut service = opened();
    let token = begin_session(&mut service);
    for limbs in [strings(&["1", "2"]), strings(&["0"]), strings(&["18446744073709551615"]), strings(&[])] {
        let request = update_record(&service, &hash(3), &limbs, Some(&token)).unwrap();
        let Target::Session(id) = request.target else { panic!("a token was given") };
        SessionDB { session: id }.set_data_record(&mut service, request.record).unwrap();
        let query = get_record(&service, &hash(3), Some(&token)).unwrap();
        let Target::Session(id) = query.target else { panic!("a token was given") };
        let found = match (SessionDB { session: id }).get_data_record(&service, &query.hash).unwrap() {
            merkle_session::overlay::Lookup::Pending(v) => v,
            merkle_session::overlay::Lookup::Base => None,
        };
        assert_eq!(record_limbs(found.as_ref()), limbs);
    }
}
