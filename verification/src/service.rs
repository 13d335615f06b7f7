//! The service state: where the store is open, which sessions are live, and what
//! each of them has pending.
//!
//! The state is one value that the caller owns and hands to every operation. The
//! operations here decide and record; connecting to the persistent store and
//! persisting a committed batch are the caller's part.
use crate::error::{
    agrees, already_opened, not_opened, recording_unsupported, unknown_session, Error, ErrorKind,
    ErrorModel,
};
use crate::overlay::{data_lookup_view, CommitBatch, Lookup, OverlayModel, OverlayState};
use crate::record::{DataHashRecord, DataRecordModel, MerkleRecord};
use crate::token::{
    format_token, lemma_session_token_injective, parse_token, session_token, token_id,
};
use std::collections::HashMap;
use vstd::prelude::*;
use vstd::std_specs::hash::*;

verus! {

broadcast use vstd::std_specs::hash::group_hash_axioms;

/// What a read or write is pointed at: the bare store, or the view of one session.
#[derive(Clone, Copy, Debug, PartialEq, Eq, Structural)]
pub enum Target {
    /// The persistent store itself.
    Base,
    /// The overlay of the session with this number, over the persistent store.
    Session(u64),
}

/// What the caller has to do for an `open` that was accepted.
#[derive(Clone, Copy, Debug, PartialEq, Eq, Structural)]
pub enum OpenAction {
    /// Nothing is open yet: connect to the location, then report it with
    /// [`connected`].
    Connect,
    /// The same location is open already: nothing to do.
    AlreadyOpen,
}

/// The text of an optional string.
pub open spec fn text_of(s: Option<&str>) -> Option<Seq<char>> {
    match s {
        Some(t) => Some(t@),
        None => None,
    }
}

/// The service state as plain values.
pub struct ServiceModel {
    /// The location at which the store is open, if it is.
    pub location: Option<Seq<char>>,
    /// The number that the next session gets.
    pub next_id: u64,
    /// The live sessions by number, each with its overlay.
    pub sessions: Map<u64, OverlayModel>,
}

impl ServiceModel {
    /// The state at start: nothing open, no session, the first session number 1.
    pub open spec fn initial() -> ServiceModel {
        ServiceModel { location: None, next_id: 1, sessions: Map::empty() }
    }

    /// In every overlay, every record sits under its own hash.
    pub open spec fn wf(self) -> bool {
        forall|id: u64| #[trigger] self.sessions.contains_key(id) ==> self.sessions[id].wf()
    }

    /// The answer to a request to open `uri`.
    pub open spec fn open(self, uri: Seq<char>) -> Result<OpenAction, ErrorModel> {
        match self.location {
            None => Ok(OpenAction::Connect),
            Some(existing) => if existing == uri {
                Ok(OpenAction::AlreadyOpen)
            } else {
                Err(already_opened(existing, uri))
            },
        }
    }

    /// The state after a connection to `uri` was made: the first location stays.
    pub open spec fn connected(self, uri: Seq<char>) -> ServiceModel {
        match self.location {
            None => ServiceModel { location: Some(uri), ..self },
            Some(_) => self,
        }
    }

    /// The number of the live session that `token` names, if it names one.
    pub open spec fn live(self, token: Seq<char>) -> Option<u64> {
        match token_id(token) {
            Some(id) => if self.sessions.contains_key(id) {
                Some(id)
            } else {
                None
            },
            None => None,
        }
    }

    /// The state after a session was begun: it has the number `next_id` and an
    /// empty overlay, and the next number is one more (0 after the largest).
    pub open spec fn begin(self) -> ServiceModel {
        ServiceModel {
            location: self.location,
            next_id: if self.next_id == u64::MAX {
                0
            } else {
                (self.next_id + 1) as u64
            },
            sessions: self.sessions.insert(self.next_id, OverlayModel::empty()),
        }
    }

    /// The state without the session `id`.
    pub open spec fn drop_session(self, id: u64) -> ServiceModel {
        ServiceModel { sessions: self.sessions.remove(id), ..self }
    }

    /// The state in which the session `id` has the overlay `overlay`.
    pub open spec fn with_overlay(self, id: u64, overlay: OverlayModel) -> ServiceModel {
        ServiceModel { sessions: self.sessions.insert(id, overlay), ..self }
    }

    /// The state in which the session `id` has nothing pending.
    pub open spec fn reset(self, id: u64) -> ServiceModel {
        self.with_overlay(id, OverlayModel::empty())
    }

    /// The state after a tree node was written in the session `id`.
    pub open spec fn set_merkle(self, id: u64, record: MerkleRecord) -> ServiceModel {
        self.with_overlay(id, self.sessions[id].set_merkle(record))
    }

    /// The state after tree nodes were written in the session `id`, in order.
    pub open spec fn set_merkle_all(self, id: u64, records: Seq<MerkleRecord>) -> ServiceModel {
        self.with_overlay(id, self.sessions[id].set_merkle_all(records))
    }

    /// The state after a payload was written in the session `id`.
    pub open spec fn set_data(self, id: u64, record: DataRecordModel) -> ServiceModel {
        self.with_overlay(id, self.sessions[id].set_data(record))
    }

    /// What an operation on the store is pointed at, for an optional session token:
    /// nothing before the store is open, the bare store without a token, the
    /// session's view for the token of a live session.
    pub open spec fn get_db(self, session: Option<Seq<char>>) -> Result<Target, ErrorModel> {
        if self.location is None {
            Err(not_opened())
        } else {
            match session {
                None => Ok(Target::Base),
                Some(token) => match self.live(token) {
                    Some(id) => Ok(Target::Session(id)),
                    None => Err(unknown_session(ErrorKind::InvalidArgument, token)),
                },
            }
        }
    }

    /// The overlay that shadows the store for `target`, if one does.
    pub open spec fn overlay(self, target: Target) -> Option<OverlayModel> {
        match target {
            Target::Base => None,
            Target::Session(id) => if self.sessions.contains_key(id) {
                Some(self.sessions[id])
            } else {
                None
            },
        }
    }
}

/// The service state.
pub struct MerkleService {
    location: Option<String>,
    next_id: u64,
    sessions: HashMap<u64, OverlayState>,
}

impl MerkleService {
    /// Every overlay is well formed.
    pub closed spec fn wf(&self) -> bool {
        forall|id: u64| #[trigger] self.sessions@.contains_key(id) ==> self.sessions@[id].wf()
    }

    /// The state as plain values.
    pub closed spec fn view(&self) -> ServiceModel {
        ServiceModel {
            location: match self.location {
                Some(uri) => Some(uri@),
                None => None,
            },
            next_id: self.next_id,
            sessions: self.sessions@.map_values(|o: OverlayState| o@),
        }
    }

    /// A well-formed state has a well-formed plain value.
    pub proof fn lemma_view_wf(&self)
        requires
            self.wf(),
        ensures
            self@.wf(),
    {
        assert forall|id: u64| #[trigger]
            self@.sessions.contains_key(id) implies self@.sessions[id].wf() by {
            assert(self.sessions@.contains_key(id));
            self.sessions@[id].lemma_view_wf();
        }
    }

    /// The state at start: nothing open, no session.
    pub fn new() -> (service: Self)
        ensures
            service.wf(),
            service@ == ServiceModel::initial(),
    {
        let service = MerkleService { location: None, next_id: 1, sessions: HashMap::new() };
        assert(service@.sessions =~= Map::empty());
        service
    }

    /// The number of the live session that `token` names, if it names one.
    pub fn live_session(&self, token: &str) -> (id: Option<u64>)
        ensures
            id == self@.live(token@),
    {
        match parse_token(token) {
            Some(id) => if self.sessions.contains_key(&id) {
                Some(id)
            } else {
                None
            },
            None => None,
        }
    }

    /// Puts `overlay` in the place of the overlay of the session `id`.
    fn put_overlay(&mut self, id: u64, overlay: OverlayState)
        requires
            old(self).wf(),
            overlay.wf(),
        ensures
            final(self).wf(),
            final(self)@ == old(self)@.with_overlay(id, overlay@),
    {
        self.sessions.insert(id, overlay);
        assert(self@.sessions =~= old(self)@.sessions.insert(id, overlay@));
    }

    /// Takes the overlay of the session `id` out, if the session is live.
    fn take_overlay(&mut self, id: u64) -> (overlay: Option<OverlayState>)
        requires
            old(self).wf(),
        ensures
            final(self).wf(),
            match overlay {
                Some(o) => {
                    &&& old(self)@.sessions.contains_key(id)
                    &&& o.wf()
                    &&& o@ == old(self)@.sessions[id]
                    &&& final(self)@ == old(self)@.drop_session(id)
                },
                None => !old(self)@.sessions.contains_key(id) && final(self)@ == old(self)@,
            },
    {
        let overlay = self.sessions.remove(&id);
        assert(self@.sessions =~= old(self)@.sessions.remove(id));
        proof {
            if overlay is None {
                assert(self.sessions@ =~= old(self).sessions@);
                assert(self@.sessions =~= old(self)@.sessions);
            }
        }
        overlay
    }
}

/// The view of one session: its overlay over the persistent store, behind the
/// reads and writes that the store itself offers. What the overlay holds it
/// answers itself; for the rest it says that the store has to answer. Writes go
/// to the overlay and nowhere else.
#[derive(Clone, Copy, Debug, PartialEq, Eq, Structural)]
pub struct SessionDB {
    /// The number of the session.
    pub session: u64,
}

impl SessionDB {
    /// Reads a tree node in the session.
    pub fn get_merkle_record(&self, service: &MerkleService, hash: &[u8; 32]) -> (r: Result<
        Lookup<MerkleRecord>,
        Error,
    >)
        requires
            service.wf(),
        ensures
            match r {
                Ok(lookup) => {
                    &&& service@.sessions.contains_key(self.session)
                    &&& lookup == service@.sessions[self.session].get_merkle(hash@)
                },
                Err(e) => {
                    &&& !service@.sessions.contains_key(self.session)
                    &&& e@ == session_gone(self.session)
                },
            },
    {
        match service.sessions.get(&self.session) {
            Some(overlay) => Ok(overlay.get_merkle_record(hash)),
            None => Err(Error::session_gone(self.session)),
        }
    }

    /// Reads a payload in the session.
    pub fn get_data_record(&self, service: &MerkleService, hash: &[u8; 32]) -> (r: Result<
        Lookup<DataHashRecord>,
        Error,
    >)
        requires
            service.wf(),
        ensures
            match r {
                Ok(lookup) => {
                    &&& service@.sessions.contains_key(self.session)
                    &&& data_lookup_view(lookup) == service@.sessions[self.session].get_data(hash@)
                },
                Err(e) => {
                    &&& !service@.sessions.contains_key(self.session)
                    &&& e@ == session_gone(self.session)
                },
            },
    {
        match service.sessions.get(&self.session) {
            Some(overlay) => Ok(overlay.get_data_record(hash)),
            None => Err(Error::session_gone(self.session)),
        }
    }

    /// Writes a tree node in the session: into its overlay, and nowhere else.
    pub fn set_merkle_record(&self, service: &mut MerkleService, record: MerkleRecord) -> (r:
        Result<(), Error>)
        requires
            old(service).wf(),
        ensures
            final(service).wf(),
            match r {
                Ok(_) => {
                    &&& old(service)@.sessions.contains_key(self.session)
                    &&& final(service)@ == old(service)@.set_merkle(self.session, record)
                },
                Err(e) => {
                    &&& !old(service)@.sessions.contains_key(self.session)
                    &&& final(service)@ == old(service)@
                    &&& e@ == session_gone(self.session)
                },
            },
    {
        match service.take_overlay(self.session) {
            Some(mut overlay) => {
                overlay.set_merkle_record(record);
                service.put_overlay(self.session, overlay);
                assert(service@.sessions =~= old(service)@.sessions.insert(
                    self.session,
                    overlay@,
                ));
                Ok(())
            },
            None => Err(Error::session_gone(self.session)),
        }
    }

    /// Writes several tree nodes in the session, in order.
    pub fn set_merkle_records(
        &self,
        service: &mut MerkleService,
        records: &Vec<MerkleRecord>,
    ) -> (r: Result<(), Error>)
        requires
            old(service).wf(),
        ensures
            final(service).wf(),
            match r {
                Ok(_) => {
                    &&& old(service)@.sessions.contains_key(self.session)
                    &&& final(service)@ == old(service)@.set_merkle_all(self.session, records@)
                },
                Err(e) => {
                    &&& !old(service)@.sessions.contains_key(self.session)
                    &&& final(service)@ == old(service)@
                    &&& e@ == session_gone(self.session)
                },
            },
    {
        match service.take_overlay(self.session) {
            Some(mut overlay) => {
                overlay.set_merkle_records(records);
                service.put_overlay(self.session, overlay);
                assert(service@.sessions =~= old(service)@.sessions.insert(
                    self.session,
                    overlay@,
                ));
                Ok(())
            },
            None => Err(Error::session_gone(self.session)),
        }
    }

    /// Writes a payload in the session: into its overlay, and nowhere else.
    pub fn set_data_record(&self, service: &mut MerkleService, record: DataHashRecord) -> (r:
        Result<(), Error>)
        requires
            old(service).wf(),
        ensures
            final(service).wf(),
            match r {
                Ok(_) => {
                    &&& old(service)@.sessions.contains_key(self.session)
                    &&& final(service)@ == old(service)@.set_data(self.session, record@)
                },
                Err(e) => {
                    &&& !old(service)@.sessions.contains_key(self.session)
                    &&& final(service)@ == old(service)@
                    &&& e@ == session_gone(self.session)
                },
            },
    {
        match service.take_overlay(self.session) {
            Some(mut overlay) => {
                overlay.set_data_record(record);
                service.put_overlay(self.session, overlay);
                assert(service@.sessions =~= old(service)@.sessions.insert(
                    self.session,
                    overlay@,
                ));
                Ok(())
            },
            None => Err(Error::session_gone(self.session)),
        }
    }

    /// A session view takes no part in change recording: starting it fails.
    pub fn start_record(&self) -> (r: Result<(), Error>)
        ensures
            r matches Err(e) && e@ == recording_unsupported(),
    {
        Err(Error::recording_unsupported())
    }

    /// A session view takes no part in change recording: stopping it fails.
    pub fn stop_record(&self) -> (r: Result<(), Error>)
        ensures
            r matches Err(e) && e@ == recording_unsupported(),
    {
        Err(Error::recording_unsupported())
    }

    /// A session view never records.
    pub fn is_recording(&self) -> (recording: bool)
        ensures
            !recording,
    {
        false
    }
}

/// The failure for a read or write in a session that is not live.
pub open spec fn session_gone(session: u64) -> ErrorModel {
    unknown_session(ErrorKind::InvalidArgument, session_token(session))
}

impl Error {
    /// The failure for a read or write in a session that is not live.
    pub fn session_gone(session: u64) -> (e: Error)
        ensures
            e@ == session_gone(session),
    {
        let token = format_token(session);
        Error::unknown_session(ErrorKind::InvalidArgument, token.as_str())
    }
}

/// Decides a request to open the store at `uri`.
///
/// The first location wins: while nothing is open the caller is told to connect;
/// the location that is open is accepted again without effect; any other is
/// refused. The state does not change here: a connection that was made is
/// reported with [`connected`].
pub fn open(service: &MerkleService, uri: &str) -> (r: Result<OpenAction, Error>)
    ensures
        agrees(r, service@.open(uri@)),
{
    match &service.location {
        None => Ok(OpenAction::Connect),
        Some(existing) => {
            let requested = uri.to_owned();
            if *existing == requested {
                Ok(OpenAction::AlreadyOpen)
            } else {
                Err(Error::already_opened(existing.as_str(), uri))
            }
        },
    }
}

/// Records that the store is now open at `uri`. If a location was recorded
/// before, it stays.
pub fn connected(service: &mut MerkleService, uri: String)
    requires
        old(service).wf(),
    ensures
        final(service).wf(),
        final(service)@ == old(service)@.connected(uri@),
{
    if service.location.is_none() {
        service.location = Some(uri);
    }
}

/// Says what an operation on the store is pointed at.
pub fn get_db(service: &MerkleService, session: Option<&str>) -> (r: Result<Target, Error>)
    ensures
        agrees(r, service@.get_db(text_of(session))),
{
    if service.location.is_none() {
        return Err(Error::not_opened());
    }
    match session {
        None => Ok(Target::Base),
        Some(token) => match service.live_session(token) {
            Some(id) => Ok(Target::Session(id)),
            None => Err(Error::unknown_session(ErrorKind::InvalidArgument, token)),
        },
    }
}

/// Begins a session: it gets the next number and an empty overlay, and its token
/// is returned. Never fails.
pub fn begin_session(service: &mut MerkleService) -> (token: String)
    requires
        old(service).wf(),
    ensures
        final(service).wf(),
        token@ == session_token(old(service)@.next_id),
        final(service)@ == old(service)@.begin(),
{
    let id = service.next_id;
    service.next_id = if id == u64::MAX {
        0
    } else {
        id + 1
    };
    service.sessions.insert(id, OverlayState::new());
    assert(service@.sessions =~= old(service)@.sessions.insert(id, OverlayModel::empty()));
    format_token(id)
}

/// Ends a session and discards what it had pending. Says whether the session
/// existed.
pub fn drop_session(service: &mut MerkleService, session: &str) -> (existed: bool)
    requires
        old(service).wf(),
    ensures
        final(service).wf(),
        existed == (old(service)@.live(session@) is Some),
        final(service)@ == match old(service)@.live(session@) {
            Some(id) => old(service)@.drop_session(id),
            None => old(service)@,
        },
{
    match parse_token(session) {
        Some(id) => service.take_overlay(id).is_some(),
        None => false,
    }
}

/// Discards what a session has pending; the session stays live under the same
/// token.
pub fn reset_session(service: &mut MerkleService, session: &str) -> (r: Result<bool, Error>)
    requires
        old(service).wf(),
    ensures
        final(service).wf(),
        match old(service)@.live(session@) {
            Some(id) => r == Ok::<bool, Error>(true) && final(service)@ == old(service)@.reset(id),
            None => r matches Err(e) && e@ == unknown_session(ErrorKind::NotFound, session@)
                && final(service)@ == old(service)@,
        },
{
    match service.live_session(session) {
        Some(id) => {
            service.put_overlay(id, OverlayState::new());
            Ok(true)
        },
        None => Err(Error::unknown_session(ErrorKind::NotFound, session)),
    }
}

/// Commits a session: takes everything it has pending out of its overlay and
/// hands it to the caller to persist.
///
/// The overlay is empty afterwards whatever happens next: also where the store was
/// never opened, which is reported after the overlay was drained, and also where
/// the caller then fails to persist the batch.
pub fn commit_session(service: &mut MerkleService, session: &str) -> (r: Result<
    CommitBatch,
    Error,
>)
    requires
        old(service).wf(),
    ensures
        final(service).wf(),
        match old(service)@.live(session@) {
            Some(id) => {
                &&& final(service)@ == old(service)@.reset(id)
                &&& match r {
                    Ok(batch) => old(service)@.location is Some && batch.drains(
                        old(service)@.sessions[id],
                    ),
                    Err(e) => old(service)@.location is None && e@ == not_opened(),
                }
            },
            None => r matches Err(e) && e@ == unknown_session(ErrorKind::NotFound, session@)
                && final(service)@ == old(service)@,
        },
{
    let id = match service.live_session(session) {
        Some(id) => id,
        None => {
            return Err(Error::unknown_session(ErrorKind::NotFound, session));
        },
    };
    let mut overlay = service.take_overlay(id).unwrap();
    let batch = overlay.drain();
    service.put_overlay(id, overlay);
    assert(service@.sessions =~= old(service)@.sessions.insert(id, OverlayModel::empty()));
    if service.location.is_none() {
        return Err(Error::not_opened());
    }
    Ok(batch)
}

/// One change of the service state.
pub enum ServiceOp {
    /// A connection to this location was made.
    Connected(Seq<char>),
    /// A session was begun.
    Begin,
    /// The session with this number was dropped.
    Drop(u64),
    /// The session with this number was reset.
    Reset(u64),
    /// The session with this number was committed.
    Commit(u64),
    /// A tree node was written in the session with this number.
    SetMerkle(u64, MerkleRecord),
    /// A payload was written in the session with this number.
    SetData(u64, DataRecordModel),
}

impl ServiceModel {
    /// The state after one change. A change that names a session that is not
    /// live leaves the state as it is.
    pub open spec fn step(self, op: ServiceOp) -> ServiceModel {
        match op {
            ServiceOp::Connected(uri) => self.connected(uri),
            ServiceOp::Begin => self.begin(),
            ServiceOp::Drop(id) => if self.sessions.contains_key(id) {
                self.drop_session(id)
            } else {
                self
            },
            ServiceOp::Reset(id) => if self.sessions.contains_key(id) {
                self.reset(id)
            } else {
                self
            },
            ServiceOp::Commit(id) => if self.sessions.contains_key(id) {
                self.reset(id)
            } else {
                self
            },
            ServiceOp::SetMerkle(id, record) => if self.sessions.contains_key(id) {
                self.set_merkle(id, record)
            } else {
                self
            },
            ServiceOp::SetData(id, record) => if self.sessions.contains_key(id) {
                self.set_data(id, record)
            } else {
                self
            },
        }
    }

    /// The state after a list of changes, in order.
    pub open spec fn run(self, ops: Seq<ServiceOp>) -> ServiceModel
        decreases ops.len(),
    {
        if ops.len() == 0 {
            self
        } else {
            self.run(ops.drop_last()).step(ops.last())
        }
    }

    /// The state in which the change at position `i` of `ops` is made.
    pub open spec fn before(self, ops: Seq<ServiceOp>, i: int) -> ServiceModel {
        self.run(ops.subrange(0, i))
    }
}

/// How many sessions are begun by the changes at the positions from `i` up to,
/// but not including, `j`.
pub open spec fn begins_between(ops: Seq<ServiceOp>, i: int, j: int) -> nat
    decreases j - i,
{
    if j <= i {
        0
    } else if ops[j - 1] is Begin {
        begins_between(ops, i, j - 1) + 1
    } else {
        begins_between(ops, i, j - 1)
    }
}

/// The counter moves on by one, around its 64 bits, with every session begun,
/// and with nothing else.
proof fn lemma_counter_counts_begins(service: ServiceModel, ops: Seq<ServiceOp>, i: int, j: int)
    requires
        0 <= i <= j <= ops.len(),
    ensures
        service.before(ops, j).next_id == (service.before(ops, i).next_id + begins_between(
            ops,
            i,
            j,
        )) % 0x1_0000_0000_0000_0000,
        begins_between(ops, i, j) <= j - i,
        i < j && ops[i] is Begin ==> begins_between(ops, i, j) >= 1,
    decreases j - i,
{
    if i < j {
        assert(ops.subrange(0, j).drop_last() =~= ops.subrange(0, j - 1));
        assert(ops.subrange(0, j).last() == ops[j - 1]);
        lemma_counter_counts_begins(service, ops, i, j - 1);
    }
}

/// No two sessions get the same token.
///
/// Take any state and any list of changes in which sessions are begun, dropped,
/// reset, committed and written to in any order. The sessions begun at two
/// different positions of the list have different tokens (the token of a session
/// is that of the counter in the state in which it is begun), unless the number
/// of sessions begun from the first up to the second is a multiple of 2^64:
/// only then has the 64-bit counter come back to the number it handed out.
pub proof fn law_tokens_are_distinct(service: ServiceModel, ops: Seq<ServiceOp>, i: int, j: int)
    requires
        0 <= i < j < ops.len(),
        ops[i] is Begin,
        ops[j] is Begin,
        begins_between(ops, i, j) % 0x1_0000_0000_0000_0000 != 0,
    ensures
        session_token(service.before(ops, i).next_id) != session_token(
            service.before(ops, j).next_id,
        ),
{
    lemma_counter_counts_begins(service, ops, i, j);
    let a = service.before(ops, i).next_id;
    let b = service.before(ops, j).next_id;
    assert(a != b);
    if session_token(a) == session_token(b) {
        lemma_session_token_injective(a, b);
    }
}

/// The first location wins.
///
/// Once the store is open at `first`, a request to open it at another location
/// is refused and changes nothing, and a request to open it at `first` again is
/// accepted without anything to do.
pub proof fn law_first_location_wins(service: ServiceModel, first: Seq<char>, second: Seq<char>)
    requires
        service.location is None,
        first != second,
    ensures
        service.open(first) == Ok::<OpenAction, ErrorModel>(OpenAction::Connect),
        ({
            let opened = service.connected(first);
            &&& opened.location == Some(first)
            &&& opened.open(second) == Err::<OpenAction, ErrorModel>(already_opened(first, second))
            &&& opened.connected(second) == opened
            &&& opened.open(first) == Ok::<OpenAction, ErrorModel>(OpenAction::AlreadyOpen)
        }),
{
}

} // verus!
