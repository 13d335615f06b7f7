//! Session overlays over a hash-addressed record store.
//!
//! The store underneath is a fixed-depth sparse Merkle tree and a hash-keyed
//! payload store, both kept as records under 32-byte hashes. A session is an
//! in-memory overlay over that store: what is written in a session stays in its
//! overlay, shadows the store for reads in that session, and is invisible
//! everywhere else until the session is committed. Many sessions can lie over
//! one store at the same time, which makes trial runs of transaction batches
//! cheap.
//!
//! This crate holds the state and the rules, and proves them:
//!
//! - [`service`]: the service state (where the store is open, the live sessions
//!   and their overlays), the session lifecycle (`begin_session`,
//!   `reset_session`, `commit_session`, `drop_session`), and [`service::SessionDB`],
//!   a session's view of the store;
//! - [`overlay`], [`pending`], [`table`]: one session's pending writes, down to
//!   the table that holds them;
//! - [`ops`] and [`batch`]: the checks on single reads and writes and on batches
//!   of transaction traces, and the order in which a batch is replayed;
//! - [`codec`], [`decimal`], [`token`]: 32-byte buffers, decimal numbers, payloads
//!   as decimal limbs, session tokens;
//! - [`store`]: the persistent store as far as the library relies on it, and
//!   what sessions guarantee over it;
//! - [`error`]: the failures.
//!
//! The persistent store and the tree and payload engines are not part of the
//! crate. An operation that needs them returns a plain value that says what is
//! to be done on which target, and the caller does it: `open` says whether to
//! connect, [`ops`] and [`batch`] hand out checked requests and steps,
//! `commit_session` hands out the batch to persist. Locks, too, are the
//! caller's: the state is one value, and whoever shares it guards it.
pub mod batch;
pub mod codec;
pub mod decimal;
pub mod error;
pub mod ops;
pub mod overlay;
pub mod pending;
pub mod record;
pub mod service;
pub mod store;
pub mod table;
pub mod token;

pub use batch::{apply_txs, apply_txs_final, ApplyLeafWrite, ApplyRecordUpdate, ApplyTxTrace};
pub use error::{Error, ErrorKind};
pub use ops::{get_leaf, get_record, update_leaf, update_record};
pub use overlay::CommitSessionResponse;
pub use service::{
    begin_session, commit_session, connected, drop_session, get_db, open, reset_session,
    MerkleService,
};
use vstd::prelude::*;

verus! {

/// Liveness probe: always answers `true`.
pub fn ping() -> (alive: bool)
    ensures
        alive,
{
    true
}

} // verus!
