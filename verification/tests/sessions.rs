use merkle_session::overlay::{CommitBatch, CommitSessionResponse, Lookup};
use merkle_session::record::{DataHashRecord, MerkleRecord};
use merkle_session::service::{OpenAction, SessionDB, Target};
use merkle_session::{
    begin_session, commit_session, connected, drop_session, get_db, open, ping, reset_session,
    Error, ErrorKind, MerkleService,
};
use std::collections::HashMap;

fn hash(n: u8) -> [u8; 32] {
    [n; 32]
}

fn node(n: u8, index: u64) -> MerkleRecord {
    MerkleRecord { index, hash: hash(n), left: None, right: None, data: Some([n; 32]) }
}

fn payload(n: u8, data: &[u8]) -> DataHashRecord {
    DataHashRecord { hash: hash(n), data: data.to_vec() }
}

/// A stand-in for the persistent store: two maps, last write wins.
struct Base {
    merkle: HashMap<[u8; 32], MerkleRecord>,
    data: HashMap<[u8; 32], DataHashRecord>,
}

impl Base {
    fn new() -> Base {
        Base { merkle: HashMap::new(), data: HashMap::new() }
    }

    fn persist(&mut self, batch: &CommitBatch) {
        for r in &batch.merkle_records {
            self.merkle.insert(r.hash, *r);
        }
        for r in &batch.data_records {
            self.data.insert(r.hash, r.clone());
        }
    }
}

fn read_merkle(service: &MerkleService, base: &Base, target: Target, h: &[u8; 32]) -> Option<MerkleRecord> {
    match target {
        Target::Base => base.merkle.get(h).copied(),
        Target::Session(id) => match (SessionDB { session: id }).get_merkle_record(service, h).unwrap() {
            Lookup::Pending(v) => v,
            Lookup::Base => base.merkle.get(h).copied(),
        },
    }
}

fn read_data(service: &MerkleService, base: &Base, target: Target, h: &[u8; 32]) -> Option<DataHashRecord> {
    match target {
        Target::Base => base.data.get(h).cloned(),
        Target::Session(id) => match (SessionDB { session: id }).get_data_record(service, h).unwrap() {
            Lookup::Pending(v) => v,
            Lookup::Base => base.data.get(h).cloned(),
        },
    }
}

fn opened() -> MerkleService {
    let mut service = MerkleService::new();
    assert_eq!(open(&service, "db/a"), Ok(OpenAction::Connect));
    connected(&mut service, "db/a".to_string());
    service
}

fn session_id(service: &MerkleService, token: &str) -> u64 {
    match get_db(service, Some(token)).unwrap() {
        Target::Session(id) => id,
        Target::Base => panic!("a token was given"),
    }
}

#[test]
fn ping_answers_true() {
    assert!(ping());
}

#[test]
fn open_first_location_wins() {
    let mut service = MerkleService::new();
    assert_eq!(open(&service, "db/a"), Ok(OpenAction::Connect));
    connected(&mut service, "db/a".to_string());
    let err = open(&service, "db/b").unwrap_err();
    assert_eq!(err.kind, ErrorKind::Conflict);
    assert_eq!(err.message, "merkle db already opened at db/a, refusing db/b");
    assert_eq!(open(&service, "db/a"), Ok(OpenAction::AlreadyOpen));
    connected(&mut service, "db/b".to_string());
    assert_eq!(open(&service, "db/a"), Ok(OpenAction::AlreadyOpen));
    assert_eq!(open(&service, "db/b").unwrap_err().kind, ErrorKind::Conflict);
}

#[test]
fn open_asks_to_connect_until_a_connection_is_reported() {
    let service = MerkleService::new();
    assert_eq!(open(&service, "db/a"), Ok(OpenAction::Connect));
    assert_eq!(open(&service, "db/b"), Ok(OpenAction::Connect));
    assert_eq!(get_db(&service, None).unwrap_err().kind, ErrorKind::NotInitialized);
}

#[test]
fn get_db_before_open_is_not_initialized() {
    let mut service = MerkleService::new();
    let token = begin_session(&mut service);
    let err = get_db(&service, None).unwrap_err();
    assert_eq!(err.kind, ErrorKind::NotInitialized);
    assert_eq!(err.message, "merkle db not opened");
    let err = get_db(&service, Some(&token)).unwrap_err();
    assert_eq!(err.kind, ErrorKind::NotInitialized);
}

#[test]
fn get_db_points_at_the_base_or_a_live_session() {
    let mut service = opened();
    assert_eq!(get_db(&service, None), Ok(Target::Base));
    let token = begin_session(&mut service);
    assert_eq!(token, "s1");
    assert_eq!(get_db(&service, Some("s1")), Ok(Target::Session(1)));
    let err = get_db(&service, Some("s2")).unwrap_err();
    assert_eq!(err.kind, ErrorKind::InvalidArgument);
    assert_eq!(err.message, "unknown session: s2");
    for bad in ["", "1", "s01", "s+1", "S1", "s1 "] {
        let err = get_db(&service, Some(bad)).unwrap_err();
        assert_eq!(err.kind, ErrorKind::InvalidArgument);
        assert_eq!(err.message, format!("unknown session: {}", bad));
    }
}

#[test]
fn begin_session_counts_from_one() {
    let mut service = MerkleService::new();
    assert_eq!(begin_session(&mut service), "s1");
    assert_eq!(begin_session(&mut service), "s2");
    assert_eq!(begin_session(&mut service), "s3");
}

#[test]
fn tokens_stay_distinct_across_begins_and_drops() {
    let mut service = MerkleService::new();
    let mut seen: Vec<String> = Vec::new();
    for round in 0..50 {
        let token = begin_session(&mut service);
        assert!(!seen.contains(&token), "{} was issued twice", token);
        if round % 3 != 0 {
            assert!(drop_session(&mut service, &token));
        }
        if round % 7 == 0 && !seen.is_empty() {
            let _ = drop_session(&mut service, &seen[round / 2]);
        }
        seen.push(token);
    }
    assert_eq!(seen.len(), 50);
    assert_eq!(seen[49], "s50");
}

#[test]
fn drop_session_says_whether_the_session_existed() {
    let mut service = MerkleService::new();
    let token = begin_session(&mut service);
    assert!(!drop_session(&mut service, "s9"));
    assert!(!drop_session(&mut service, "nonsense"));
    assert!(drop_session(&mut service, &token));
    assert!(!drop_session(&mut service, &token));
    assert_eq!(service.live_session(&token), None);
}

#[test]
fn reset_session_needs_a_live_session() {
    let mut service = MerkleService::new();
    let err = reset_session(&mut service, "s1").unwrap_err();
    assert_eq!(err.kind, ErrorKind::NotFound);
    assert_eq!(err.message, "unknown session: s1");
    let token = begin_session(&mut service);
    assert_eq!(reset_session(&mut service, &token), Ok(true));
    assert_eq!(service.live_session(&token), Some(1));
    assert!(drop_session(&mut service, &token));
    assert_eq!(reset_session(&mut service, &token).unwrap_err().kind, ErrorKind::NotFound);
}

#[test]
fn commit_session_needs_a_live_session() {
    let mut service = opened();
    let err = commit_session(&mut service, "s1").unwrap_err();
    assert_eq!(err.kind, ErrorKind::NotFound);
    assert_eq!(err.message, "unknown session: s1");
}

#[test]
fn a_write_in_a_session_is_seen_there_and_nowhere_else() {
    let mut service = opened();
    let mut base = Base::new();
    base.merkle.insert(hash(1), node(1, 100));
    base.data.insert(hash(2), payload(2, &[1]));
    let s = begin_session(&mut service);
    let t = begin_session(&mut service);
    let (s, t) = (session_id(&service, &s), session_id(&service, &t));

    SessionDB { session: s }.set_merkle_record(&mut service, node(1, 200)).unwrap();
    SessionDB { session: s }.set_data_record(&mut service, payload(2, &[2, 2])).unwrap();
    SessionDB { session: s }.set_merkle_record(&mut service, node(3, 300)).unwrap();

    assert_eq!(read_merkle(&service, &base, Target::Session(s), &hash(1)), Some(node(1, 200)));
    assert_eq!(read_data(&service, &base, Target::Session(s), &hash(2)), Some(payload(2, &[2, 2])));
    assert_eq!(read_merkle(&service, &base, Target::Session(s), &hash(3)), Some(node(3, 300)));

    assert_eq!(read_merkle(&service, &base, Target::Base, &hash(1)), Some(node(1, 100)));
    assert_eq!(read_data(&service, &base, Target::Base, &hash(2)), Some(payload(2, &[1])));
    assert_eq!(read_merkle(&service, &base, Target::Base, &hash(3)), None);

    assert_eq!(read_merkle(&service, &base, Target::Session(t), &hash(1)), Some(node(1, 100)));
    assert_eq!(read_data(&service, &base, Target::Session(t), &hash(2)), Some(payload(2, &[1])));
    assert_eq!(read_merkle(&service, &base, Target::Session(t), &hash(3)), None);
}

#[test]
fn commit_then_drop_leaves_the_records_in_the_base() {
    let mut service = opened();
    let mut base = Base::new();
    base.merkle.insert(hash(9), node(9, 9));
    let token = begin_session(&mut service);
    let s = session_id(&service, &token);
    SessionDB { session: s }.set_merkle_records(&mut service, &vec![node(1, 1), node(2, 2)]).unwrap();
    SessionDB { session: s }.set_merkle_record(&mut service, node(1, 11)).unwrap();
    SessionDB { session: s }.set_data_record(&mut service, payload(5, &[5, 5])).unwrap();

    let batch = commit_session(&mut service, &token).unwrap();
    assert_eq!(batch.response(), CommitSessionResponse { merkle_records: 2, data_records: 1 });
    base.persist(&batch);
    assert!(drop_session(&mut service, &token));

    assert_eq!(read_merkle(&service, &base, Target::Base, &hash(1)), Some(node(1, 11)));
    assert_eq!(read_merkle(&service, &base, Target::Base, &hash(2)), Some(node(2, 2)));
    assert_eq!(read_merkle(&service, &base, Target::Base, &hash(9)), Some(node(9, 9)));
    assert_eq!(read_data(&service, &base, Target::Base, &hash(5)), Some(payload(5, &[5, 5])));
}

#[test]
fn commit_drains_the_overlay_and_keeps_the_session() {
    let mut service = opened();
    let token = begin_session(&mut service);
    let s = session_id(&service, &token);
    SessionDB { session: s }.set_merkle_record(&mut service, node(1, 1)).unwrap();
    let first = commit_session(&mut service, &token).unwrap();
    assert_eq!(first.merkle_records, vec![node(1, 1)]);
    assert_eq!(SessionDB { session: s }.get_merkle_record(&service, &hash(1)), Ok(Lookup::Base));
    let second = commit_session(&mut service, &token).unwrap();
    assert_eq!(second.response(), CommitSessionResponse { merkle_records: 0, data_records: 0 });
    assert_eq!(service.live_session(&token), Some(s));
}

#[test]
fn commit_before_open_drains_and_fails() {
    let mut service = MerkleService::new();
    let token = begin_session(&mut service);
    SessionDB { session: 1 }.set_merkle_record(&mut service, node(1, 1)).unwrap();
    let err = commit_session(&mut service, &token).unwrap_err();
    assert_eq!(err.kind, ErrorKind::NotInitialized);
    assert_eq!(SessionDB { session: 1 }.get_merkle_record(&service, &hash(1)), Ok(Lookup::Base));
}

#[test]
fn reset_makes_a_session_read_like_a_fresh_one() {
    let mut service = opened();
    let mut base = Base::new();
    base.merkle.insert(hash(1), node(1, 100));
    let token = begin_session(&mut service);
    let s = session_id(&service, &token);
    SessionDB { session: s }.set_merkle_record(&mut service, node(1, 200)).unwrap();
    SessionDB { session: s }.set_data_record(&mut service, payload(2, &[2])).unwrap();
    assert_eq!(reset_session(&mut service, &token), Ok(true));
    assert_eq!(read_merkle(&service, &base, Target::Session(s), &hash(1)), Some(node(1, 100)));
    assert_eq!(read_data(&service, &base, Target::Session(s), &hash(2)), None);
    let batch = commit_session(&mut service, &token).unwrap();
    assert!(batch.merkle_records.is_empty() && batch.data_records.is_empty());
}

#[test]
fn store_access_in_a_session_that_is_gone_fails() {
    let mut service = opened();
    let token = begin_session(&mut service);
    assert!(drop_session(&mut service, &token));
    let gone = || Error {
        kind: ErrorKind::InvalidArgument,
        message: "unknown session: s1".to_string(),
    };
    let view = SessionDB { session: 1 };
    assert_eq!(view.get_merkle_record(&service, &hash(1)), Err(gone()));
    assert_eq!(view.get_data_record(&service, &hash(1)), Err(gone()));
    assert_eq!(view.set_merkle_record(&mut service, node(1, 1)), Err(gone()));
    assert_eq!(view.set_merkle_records(&mut service, &vec![node(1, 1)]), Err(gone()));
    assert_eq!(view.set_data_record(&mut service, payload(1, &[])), Err(gone()));
}

#[test]
fn failures_made_for_the_caller_carry_kind_and_message() {
    let e = Error::store_failure("disk full");
    assert_eq!(e.kind, ErrorKind::StoreFailure);
    assert_eq!(e.message, "disk full");
    let e = Error::lock_poisoned("sessions");
    assert_eq!(e.kind, ErrorKind::LockInconsistent);
    assert_eq!(e.message, "sessions lock poisoned");
}

#[test]
fn a_session_view_takes_no_part_in_recording() {
    let view = SessionDB { session: 1 };
    assert!(!view.is_recording());
    let err = view.start_record().unwrap_err();
    assert_eq!(err.kind, ErrorKind::Unsupported);
    assert_eq!(err.message, "session views do not support change recording");
    let err = view.stop_record().unwrap_err();
    assert_eq!(err.kind, ErrorKind::Unsupported);
    assert_eq!(err.message, "session views do not support change recording");
}
