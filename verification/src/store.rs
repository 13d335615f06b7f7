//! The persistent store as the library sees it, and what sessions guarantee over
//! it.
//!
//! The store itself lives outside this crate. Here it is a pair of maps from
//! hash to record in which the last write under a hash wins; that is all the
//! library relies on. Over this picture the module states what a reader sees
//! through a session, and proves that writes stay inside their session until
//! they are committed, that a commit carries them to the store, and that a reset
//! discards them.
use crate::overlay::{Lookup, OverlayModel};
use crate::pending::{lists_present, Keyed};
use crate::record::{DataRecordModel, MerkleRecord};
use crate::service::{ServiceModel, Target};
use vstd::prelude::*;

verus! {

/// The persistent store: what it holds under each hash, for both record kinds.
pub struct StoreModel {
    pub merkle: Map<Seq<u8>, MerkleRecord>,
    pub data: Map<Seq<u8>, DataRecordModel>,
}

/// The map after the records were written in order, each under its own hash.
pub open spec fn persist_all<R: Keyed>(m: Map<Seq<u8>, R>, records: Seq<R>) -> Map<Seq<u8>, R>
    decreases records.len(),
{
    if records.len() == 0 {
        m
    } else {
        persist_all(m, records.drop_last()).insert(records.last().key(), records.last())
    }
}

/// What a map holds under a hash, if anything.
pub open spec fn lookup<R>(m: Map<Seq<u8>, R>, hash: Seq<u8>) -> Option<R> {
    if m.contains_key(hash) {
        Some(m[hash])
    } else {
        None
    }
}

/// What a reader sees under `hash` through an optional overlay: the overlay's
/// own answer where it holds the hash, and what the store holds otherwise.
pub open spec fn read_through<R>(
    pending: Option<Map<Seq<u8>, Option<R>>>,
    base: Map<Seq<u8>, R>,
    hash: Seq<u8>,
) -> Option<R> {
    match pending {
        Some(p) => if p.contains_key(hash) {
            p[hash]
        } else {
            lookup(base, hash)
        },
        None => lookup(base, hash),
    }
}

impl StoreModel {
    /// The store after a committed batch was persisted.
    pub open spec fn persist(
        self,
        merkle_records: Seq<MerkleRecord>,
        data_records: Seq<DataRecordModel>,
    ) -> StoreModel {
        StoreModel {
            merkle: persist_all(self.merkle, merkle_records),
            data: persist_all(self.data, data_records),
        }
    }
}

/// The tree node that a read on `target` returns for `hash`.
pub open spec fn read_merkle(
    service: ServiceModel,
    base: StoreModel,
    target: Target,
    hash: Seq<u8>,
) -> Option<MerkleRecord> {
    read_through(
        match service.overlay(target) {
            Some(overlay) => Some(overlay.merkle),
            None => None,
        },
        base.merkle,
        hash,
    )
}

/// The payload that a read on `target` returns for `hash`.
pub open spec fn read_data(
    service: ServiceModel,
    base: StoreModel,
    target: Target,
    hash: Seq<u8>,
) -> Option<DataRecordModel> {
    read_through(
        match service.overlay(target) {
            Some(overlay) => Some(overlay.data),
            None => None,
        },
        base.data,
        hash,
    )
}

/// The overlay's answer and the store's, put together, are what the reader sees.
pub proof fn lemma_lookup_reads_through(overlay: OverlayModel, base: StoreModel, hash: Seq<u8>)
    ensures
        read_through(Some(overlay.merkle), base.merkle, hash) == match overlay.get_merkle(hash) {
            Lookup::Pending(v) => v,
            Lookup::Base => lookup(base.merkle, hash),
        },
        read_through(Some(overlay.data), base.data, hash) == match overlay.get_data(hash) {
            Lookup::Pending(v) => v,
            Lookup::Base => lookup(base.data, hash),
        },
{
}

/// After records with pairwise different hashes were written, the map holds each
/// of them under its hash and is unchanged under every other hash.
pub proof fn lemma_persist_all<R: Keyed>(m: Map<Seq<u8>, R>, records: Seq<R>, hash: Seq<u8>)
    requires
        forall|i: int, j: int|
            0 <= i < j < records.len() ==> (#[trigger] records[i]).key() != (
            #[trigger] records[j]).key(),
    ensures
        forall|i: int|
            0 <= i < records.len() && (#[trigger] records[i]).key() == hash ==> lookup(
                persist_all(m, records),
                hash,
            ) == Some(records[i]),
        (forall|i: int| 0 <= i < records.len() ==> (#[trigger] records[i]).key() != hash)
            ==> lookup(persist_all(m, records), hash) == lookup(m, hash),
    decreases records.len(),
{
    if records.len() > 0 {
        let head = records.drop_last();
        let last = records.last();
        assert forall|i: int, j: int| 0 <= i < j < head.len() implies (
        #[trigger] head[i]).key() != (#[trigger] head[j]).key() by {
            assert(head[i] == records[i] && head[j] == records[j]);
        }
        lemma_persist_all(m, head, hash);
        assert forall|i: int|
            0 <= i < records.len() && (#[trigger] records[i]).key() == hash implies lookup(
            persist_all(m, records),
            hash,
        ) == Some(records[i]) by {
            if i < head.len() {
                assert(head[i] == records[i]);
                assert(records[i].key() != records[records.len() - 1].key());
            }
        }
        if forall|i: int| 0 <= i < records.len() ==> (#[trigger] records[i]).key() != hash {
            assert(records[records.len() - 1].key() != hash);
            assert forall|i: int| 0 <= i < head.len() implies (#[trigger] head[i]).key()
                != hash by {
                assert(head[i] == records[i]);
            }
        }
    }
}

/// A committed batch carries the session's records to the store: under every
/// hash, the store afterwards holds what the session had pending there, and
/// what it held before where the session had no record pending.
pub proof fn lemma_commit_persists<R: Keyed>(
    pending: Map<Seq<u8>, Option<R>>,
    records: Seq<R>,
    base: Map<Seq<u8>, R>,
    hash: Seq<u8>,
)
    requires
        lists_present(records, pending),
    ensures
        lookup(persist_all(base, records), hash) == if pending.contains_key(hash)
            && pending[hash] is Some {
            pending[hash]
        } else {
            lookup(base, hash)
        },
{
    lemma_persist_all(base, records, hash);
    if pending.contains_key(hash) && pending[hash] is Some {
        let i = choose|i: int| 0 <= i < records.len() && (#[trigger] records[i]).key() == hash;
        assert(pending[records[i].key()] == Some(records[i]));
    } else {
        assert forall|i: int| 0 <= i < records.len() implies (#[trigger] records[i]).key()
            != hash by {
            assert(pending.contains_key(records[i].key()));
        }
    }
}

/// A write made in a session is seen in that session and nowhere else.
///
/// After `record` was written in the live session `session`, a read of its hash
/// in that session returns it; every read on any other target, the bare store
/// included, returns what it returned before; and so does every read of another
/// hash in the session itself.
pub proof fn law_merkle_write_is_isolated(
    service: ServiceModel,
    base: StoreModel,
    session: u64,
    record: MerkleRecord,
    other: Target,
    hash: Seq<u8>,
)
    requires
        service.sessions.contains_key(session),
        other != Target::Session(session),
    ensures
        ({
            let after = service.set_merkle(session, record);
            &&& read_merkle(after, base, Target::Session(session), record.hash@) == Some(record)
            &&& read_merkle(after, base, other, hash) == read_merkle(service, base, other, hash)
            &&& read_data(after, base, other, hash) == read_data(service, base, other, hash)
            &&& hash != record.hash@ ==> read_merkle(after, base, Target::Session(session), hash)
                == read_merkle(service, base, Target::Session(session), hash)
        }),
{
}

/// A payload written in a session is seen in that session and nowhere else.
///
/// After `record` was written in the live session `session`, a read of its hash
/// in that session returns it; every read on any other target, the bare store
/// included, returns what it returned before; and so does every read of another
/// hash in the session itself.
pub proof fn law_data_write_is_isolated(
    service: ServiceModel,
    base: StoreModel,
    session: u64,
    record: DataRecordModel,
    other: Target,
    hash: Seq<u8>,
)
    requires
        service.sessions.contains_key(session),
        other != Target::Session(session),
    ensures
        ({
            let after = service.set_data(session, record);
            &&& read_data(after, base, Target::Session(session), record.hash) == Some(record)
            &&& read_data(after, base, other, hash) == read_data(service, base, other, hash)
            &&& read_merkle(after, base, other, hash) == read_merkle(service, base, other, hash)
            &&& hash != record.hash ==> read_data(after, base, Target::Session(session), hash)
                == read_data(service, base, Target::Session(session), hash)
        }),
{
}

/// What a session committed is in the store, also once the session is gone.
///
/// `merkle_records` and `data_records` are a batch drained from the live
/// session `session`, and the store persisted them. Then, with the session
/// drained and dropped, a read on the bare store returns under every hash the
/// record that the session had pending there, and where the session had none
/// pending, what the store held before.
pub proof fn law_commit_then_drop_is_durable(
    service: ServiceModel,
    base: StoreModel,
    session: u64,
    merkle_records: Seq<MerkleRecord>,
    data_records: Seq<DataRecordModel>,
    hash: Seq<u8>,
)
    requires
        service.sessions.contains_key(session),
        lists_present(merkle_records, service.sessions[session].merkle),
        lists_present(data_records, service.sessions[session].data),
    ensures
        ({
            let overlay = service.sessions[session];
            let after = service.reset(session).drop_session(session);
            let stored = base.persist(merkle_records, data_records);
            &&& read_merkle(after, stored, Target::Base, hash) == if overlay.merkle.contains_key(
                hash,
            ) && overlay.merkle[hash] is Some {
                overlay.merkle[hash]
            } else {
                read_merkle(service, base, Target::Base, hash)
            }
            &&& read_data(after, stored, Target::Base, hash) == if overlay.data.contains_key(hash)
                && overlay.data[hash] is Some {
                overlay.data[hash]
            } else {
                read_data(service, base, Target::Base, hash)
            }
        }),
{
    let overlay = service.sessions[session];
    lemma_commit_persists(overlay.merkle, merkle_records, base.merkle, hash);
    lemma_commit_persists(overlay.data, data_records, base.data, hash);
}

/// A commit changes nothing that its own session sees, where the session shadows
/// the store with records only: once the store persisted the drained batch, a
/// read in the drained session returns what it returned before.
pub proof fn law_commit_keeps_the_session_view(
    service: ServiceModel,
    base: StoreModel,
    session: u64,
    merkle_records: Seq<MerkleRecord>,
    data_records: Seq<DataRecordModel>,
    hash: Seq<u8>,
)
    requires
        service.sessions.contains_key(session),
        lists_present(merkle_records, service.sessions[session].merkle),
        lists_present(data_records, service.sessions[session].data),
        forall|h: Seq<u8>| #[trigger]
            service.sessions[session].merkle.contains_key(h)
                ==> service.sessions[session].merkle[h] is Some,
        forall|h: Seq<u8>| #[trigger]
            service.sessions[session].data.contains_key(h)
                ==> service.sessions[session].data[h] is Some,
    ensures
        ({
            let after = service.reset(session);
            let stored = base.persist(merkle_records, data_records);
            &&& read_merkle(after, stored, Target::Session(session), hash) == read_merkle(
                service,
                base,
                Target::Session(session),
                hash,
            )
            &&& read_data(after, stored, Target::Session(session), hash) == read_data(
                service,
                base,
                Target::Session(session),
                hash,
            )
        }),
{
    let overlay = service.sessions[session];
    lemma_commit_persists(overlay.merkle, merkle_records, base.merkle, hash);
    lemma_commit_persists(overlay.data, data_records, base.data, hash);
}

/// After a reset a session reads as a session that was just begun: every read in
/// it is answered by the store.
pub proof fn law_reset_falls_through(
    service: ServiceModel,
    base: StoreModel,
    session: u64,
    hash: Seq<u8>,
)
    ensures
        read_merkle(service.reset(session), base, Target::Session(session), hash) == read_merkle(
            service,
            base,
            Target::Base,
            hash,
        ),
        read_data(service.reset(session), base, Target::Session(session), hash) == read_data(
            service,
            base,
            Target::Base,
            hash,
        ),
        service.reset(session).sessions[session] == service.begin().sessions[service.next_id],
{
}

} // verus!
