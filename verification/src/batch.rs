//! Replay of transaction traces.
//!
//! A trace is a list of payload updates and a list of leaf writes. A batch of
//! traces is turned into one flat list of steps for the caller to carry out in
//! order: for each trace its payload updates, then its leaf writes, because a leaf
//! may refer to a payload that has to be there first. Everything in the batch is
//! read and checked before the first step is handed out, so a batch with a
//! malformed field changes nothing.
use crate::codec::{
    all_limbs_valid, encode_limbs, encode_limbs_spec, lemma_parse_limbs_cases, parse_u64_decimal,
    texts, to_bytes32,
};
use crate::decimal::decimal_u64;
use crate::error::{invalid_decimal, invalid_length, Error, ErrorKind, ErrorModel};
use crate::record::{DataHashRecord, DataRecordModel};
use crate::service::{get_db, text_of, MerkleService, ServiceModel, Target};
use vstd::prelude::*;

verus! {

/// One leaf write of a trace, as it crosses the boundary.
#[derive(Debug)]
pub struct ApplyLeafWrite {
    /// The leaf's index, in decimal.
    pub index: String,
    /// The leaf's 32 bytes.
    pub data: Vec<u8>,
}

/// One payload update of a trace, as it crosses the boundary.
#[derive(Debug)]
pub struct ApplyRecordUpdate {
    /// The payload's 32-byte hash.
    pub hash: Vec<u8>,
    /// The payload, as decimal 64-bit limbs.
    pub data: Vec<String>,
}

/// One transaction to replay.
#[derive(Debug)]
pub struct ApplyTxTrace {
    pub writes: Vec<ApplyLeafWrite>,
    pub update_records: Vec<ApplyRecordUpdate>,
}

/// What an [`ApplyLeafWrite`] holds.
pub struct ApplyLeafWriteModel {
    pub index: Seq<char>,
    pub data: Seq<u8>,
}

/// What an [`ApplyRecordUpdate`] holds.
pub struct ApplyRecordUpdateModel {
    pub hash: Seq<u8>,
    pub data: Seq<Seq<char>>,
}

/// What an [`ApplyTxTrace`] holds.
pub struct ApplyTxTraceModel {
    pub writes: Seq<ApplyLeafWriteModel>,
    pub update_records: Seq<ApplyRecordUpdateModel>,
}

impl View for ApplyLeafWrite {
    type V = ApplyLeafWriteModel;

    open spec fn view(&self) -> ApplyLeafWriteModel {
        ApplyLeafWriteModel { index: self.index@, data: self.data@ }
    }
}

impl View for ApplyRecordUpdate {
    type V = ApplyRecordUpdateModel;

    open spec fn view(&self) -> ApplyRecordUpdateModel {
        ApplyRecordUpdateModel { hash: self.hash@, data: texts(self.data@) }
    }
}

impl View for ApplyTxTrace {
    type V = ApplyTxTraceModel;

    open spec fn view(&self) -> ApplyTxTraceModel {
        ApplyTxTraceModel {
            writes: self.writes@.map_values(|w: ApplyLeafWrite| w@),
            update_records: self.update_records@.map_values(|u: ApplyRecordUpdate| u@),
        }
    }
}

/// What a list of traces holds.
pub open spec fn traces_view(txs: Seq<ApplyTxTrace>) -> Seq<ApplyTxTraceModel> {
    txs.map_values(|tx: ApplyTxTrace| tx@)
}

/// One thing for the caller to do on the target of a batch.
#[derive(Debug, PartialEq, Eq)]
pub enum Step {
    /// Store this payload through the payload engine.
    UpdateRecord(DataHashRecord),
    /// Write these 32 bytes to the leaf at this index through the tree engine.
    UpdateLeaf { index: u64, data: [u8; 32] },
    /// Read the tree's root as it is now and add it to the roots to return.
    EmitRoot,
}

/// What a [`Step`] holds.
pub enum StepModel {
    UpdateRecord(DataRecordModel),
    UpdateLeaf { index: u64, data: Seq<u8> },
    EmitRoot,
}

impl View for Step {
    type V = StepModel;

    open spec fn view(&self) -> StepModel {
        match self {
            Step::UpdateRecord(record) => StepModel::UpdateRecord(record@),
            Step::UpdateLeaf { index, data } => StepModel::UpdateLeaf {
                index: *index,
                data: data@,
            },
            Step::EmitRoot => StepModel::EmitRoot,
        }
    }
}

/// What a list of steps holds.
pub open spec fn steps_view(steps: Seq<Step>) -> Seq<StepModel> {
    steps.map_values(|s: Step| s@)
}

/// A batch that passed every check: where it is pointed, the root it starts
/// from, and the steps to carry out in order.
#[derive(Debug, PartialEq, Eq)]
pub struct Batch {
    pub target: Target,
    pub root: [u8; 32],
    pub steps: Vec<Step>,
}

/// What a [`Batch`] holds.
pub struct BatchModel {
    pub target: Target,
    pub root: Seq<u8>,
    pub steps: Seq<StepModel>,
}

impl View for Batch {
    type V = BatchModel;

    open spec fn view(&self) -> BatchModel {
        BatchModel { target: self.target, root: self.root@, steps: steps_view(self.steps@) }
    }
}

/// The step for one payload update: the hash has to be 32 bytes, and every limb
/// an unsigned 64-bit decimal.
pub open spec fn decode_update(update: ApplyRecordUpdateModel) -> Result<StepModel, ErrorModel> {
    if update.hash.len() != 32 {
        Err(invalid_length(update.hash.len()))
    } else {
        match encode_limbs_spec(update.data) {
            Ok(bytes) => Ok(
                StepModel::UpdateRecord(DataRecordModel { hash: update.hash, data: bytes }),
            ),
            Err(e) => Err(e),
        }
    }
}

/// The step for one leaf write: the index has to be an unsigned 64-bit decimal,
/// and the data 32 bytes.
pub open spec fn decode_write(write: ApplyLeafWriteModel) -> Result<StepModel, ErrorModel> {
    match decimal_u64(write.index) {
        None => Err(invalid_decimal("index"@, write.index)),
        Some(index) => if write.data.len() != 32 {
            Err(invalid_length(write.data.len()))
        } else {
            Ok(StepModel::UpdateLeaf { index, data: write.data })
        },
    }
}

/// The steps for a list of payload updates, in order; the first update that is
/// refused fails the list.
pub open spec fn decode_updates(updates: Seq<ApplyRecordUpdateModel>) -> Result<
    Seq<StepModel>,
    ErrorModel,
>
    decreases updates.len(),
{
    if updates.len() == 0 {
        Ok(Seq::empty())
    } else {
        match decode_update(updates[0]) {
            Err(e) => Err(e),
            Ok(step) => match decode_updates(updates.skip(1)) {
                Ok(rest) => Ok(seq![step] + rest),
                Err(e) => Err(e),
            },
        }
    }
}

/// The steps for a list of leaf writes, in order; the first write that is refused
/// fails the list.
pub open spec fn decode_writes(writes: Seq<ApplyLeafWriteModel>) -> Result<
    Seq<StepModel>,
    ErrorModel,
>
    decreases writes.len(),
{
    if writes.len() == 0 {
        Ok(Seq::empty())
    } else {
        match decode_write(writes[0]) {
            Err(e) => Err(e),
            Ok(step) => match decode_writes(writes.skip(1)) {
                Ok(rest) => Ok(seq![step] + rest),
                Err(e) => Err(e),
            },
        }
    }
}

/// The steps of one trace: its payload updates, then its leaf writes.
pub open spec fn tx_steps(tx: ApplyTxTraceModel) -> Result<Seq<StepModel>, ErrorModel> {
    match decode_updates(tx.update_records) {
        Err(e) => Err(e),
        Ok(updates) => match decode_writes(tx.writes) {
            Ok(writes) => Ok(updates + writes),
            Err(e) => Err(e),
        },
    }
}

/// The root readings that close a trace: one where every trace's root is asked
/// for, none where only the final root is.
pub open spec fn trace_end(per_tx: bool) -> Seq<StepModel> {
    if per_tx {
        seq![StepModel::EmitRoot]
    } else {
        Seq::empty()
    }
}

/// The root readings that close a batch: none where every trace's root was
/// read already, one where only the final root is asked for.
pub open spec fn batch_end(per_tx: bool) -> Seq<StepModel> {
    if per_tx {
        Seq::empty()
    } else {
        seq![StepModel::EmitRoot]
    }
}

/// The steps of a batch of traces, in order. With `per_tx` the root is read
/// after every trace; without it, once after the last trace (and also where
/// there is no trace at all).
pub open spec fn plan(txs: Seq<ApplyTxTraceModel>, per_tx: bool) -> Result<
    Seq<StepModel>,
    ErrorModel,
>
    decreases txs.len(),
{
    if txs.len() == 0 {
        Ok(batch_end(per_tx))
    } else {
        match tx_steps(txs[0]) {
            Err(e) => Err(e),
            Ok(steps) => match plan(txs.skip(1), per_tx) {
                Ok(rest) => Ok(steps + trace_end(per_tx) + rest),
                Err(e) => Err(e),
            },
        }
    }
}

/// What a request to replay `txs` from `root` comes to: the root has to be 32
/// bytes, the store open and the session (if one is named) live, and every
/// field of every trace well formed, checked in this order.
pub open spec fn apply_spec(
    service: ServiceModel,
    root: Seq<u8>,
    txs: Seq<ApplyTxTraceModel>,
    session: Option<Seq<char>>,
    per_tx: bool,
) -> Result<BatchModel, ErrorModel> {
    if root.len() != 32 {
        Err(invalid_length(root.len()))
    } else {
        match service.get_db(session) {
            Err(e) => Err(e),
            Ok(target) => match plan(txs, per_tx) {
                Ok(steps) => Ok(BatchModel { target, root, steps }),
                Err(e) => Err(e),
            },
        }
    }
}

fn decode_update_step(update: &ApplyRecordUpdate) -> (r: Result<Step, Error>)
    ensures
        match decode_update(update@) {
            Ok(step) => r matches Ok(out) && out@ == step,
            Err(m) => r matches Err(e) && e@ == m,
        },
{
    let hash = to_bytes32(update.hash.as_slice())?;
    let data = encode_limbs(&update.data)?;
    Ok(Step::UpdateRecord(DataHashRecord { hash, data }))
}

fn decode_write_step(write: &ApplyLeafWrite) -> (r: Result<Step, Error>)
    ensures
        match decode_write(write@) {
            Ok(step) => r matches Ok(out) && out@ == step,
            Err(m) => r matches Err(e) && e@ == m,
        },
{
    let index = parse_u64_decimal(write.index.as_str(), "index")?;
    let data = to_bytes32(write.data.as_slice())?;
    Ok(Step::UpdateLeaf { index, data })
}

/// Appends the steps of one trace to `steps`.
fn push_tx_steps(steps: &mut Vec<Step>, tx: &ApplyTxTrace) -> (r: Result<(), Error>)
    ensures
        match tx_steps(tx@) {
            Ok(more) => r is Ok && steps_view(final(steps)@) == steps_view(old(steps)@) + more,
            Err(m) => r matches Err(e) && e@ == m,
        },
{
    let ghost before = steps_view(steps@);
    let ghost updates = tx@.update_records;
    let ghost mut done: Seq<StepModel> = Seq::empty();
    let mut i: usize = 0;
    assert(updates.skip(0) =~= updates);
    assert(before + done =~= before);
    while i < tx.update_records.len()
        invariant
            i <= tx.update_records.len(),
            updates == tx@.update_records,
            steps_view(steps@) == before + done,
            decode_updates(updates) == match decode_updates(updates.skip(i as int)) {
                Ok(rest) => Ok::<Seq<StepModel>, ErrorModel>(done + rest),
                Err(e) => Err(e),
            },
        decreases tx.update_records.len() - i,
    {
        let ghost tail = updates.skip(i as int);
        assert(tail[0] == tx.update_records@[i as int]@);
        assert(tail.skip(1) =~= updates.skip(i + 1));
        match decode_update_step(&tx.update_records[i]) {
            Ok(step) => {
                let ghost s = step@;
                let ghost prior = steps@;
                steps.push(step);
                proof {
                    let next = done.push(s);
                    assert(steps_view(steps@) =~= steps_view(prior).push(s));
                    assert(before + next =~= (before + done).push(s));
                    assert forall|rest: Seq<StepModel>| done + (seq![s] + rest) == #[trigger] (next
                        + rest) by {
                        assert(done + (seq![s] + rest) =~= next + rest);
                    }
                    done = next;
                }
            },
            Err(e) => {
                return Err(e);
            },
        }
        i += 1;
    }
    assert(done + Seq::<StepModel>::empty() =~= done);
    let ghost from_updates = done;
    let ghost middle = steps_view(steps@);
    let ghost writes = tx@.writes;
    proof {
        done = Seq::empty();
    }
    let mut j: usize = 0;
    assert(writes.skip(0) =~= writes);
    assert(middle + done =~= middle);
    while j < tx.writes.len()
        invariant
            j <= tx.writes.len(),
            writes == tx@.writes,
            decode_updates(tx@.update_records) == Ok::<Seq<StepModel>, ErrorModel>(from_updates),
            steps_view(steps@) == middle + done,
            decode_writes(writes) == match decode_writes(writes.skip(j as int)) {
                Ok(rest) => Ok::<Seq<StepModel>, ErrorModel>(done + rest),
                Err(e) => Err(e),
            },
        decreases tx.writes.len() - j,
    {
        let ghost tail = writes.skip(j as int);
        assert(tail[0] == tx.writes@[j as int]@);
        assert(tail.skip(1) =~= writes.skip(j + 1));
        match decode_write_step(&tx.writes[j]) {
            Ok(step) => {
                let ghost s = step@;
                let ghost prior = steps@;
                steps.push(step);
                proof {
                    let next = done.push(s);
                    assert(steps_view(steps@) =~= steps_view(prior).push(s));
                    assert(middle + next =~= (middle + done).push(s));
                    assert forall|rest: Seq<StepModel>| done + (seq![s] + rest) == #[trigger] (next
                        + rest) by {
                        assert(done + (seq![s] + rest) =~= next + rest);
                    }
                    done = next;
                }
            },
            Err(e) => {
                return Err(e);
            },
        }
        j += 1;
    }
    assert(done + Seq::<StepModel>::empty() =~= done);
    assert(before + from_updates + done =~= before + (from_updates + done));
    Ok(())
}

/// The steps of a batch of traces.
fn plan_steps(txs: &Vec<ApplyTxTrace>, per_tx: bool) -> (r: Result<Vec<Step>, Error>)
    ensures
        match plan(traces_view(txs@), per_tx) {
            Ok(steps) => r matches Ok(out) && steps_view(out@) == steps,
            Err(m) => r matches Err(e) && e@ == m,
        },
{
    let ghost all = traces_view(txs@);
    let mut steps: Vec<Step> = Vec::new();
    let mut i: usize = 0;
    assert(all.skip(0) =~= all);
    assert(steps_view(steps@) =~= Seq::<StepModel>::empty());
    while i < txs.len()
        invariant
            i <= txs.len(),
            all == traces_view(txs@),
            plan(all, per_tx) == match plan(all.skip(i as int), per_tx) {
                Ok(rest) => Ok::<Seq<StepModel>, ErrorModel>(steps_view(steps@) + rest),
                Err(e) => Err(e),
            },
        decreases txs.len() - i,
    {
        let ghost tail = all.skip(i as int);
        let ghost done = steps_view(steps@);
        assert(tail[0] == txs@[i as int]@);
        assert(tail.skip(1) =~= all.skip(i + 1));
        match push_tx_steps(&mut steps, &txs[i]) {
            Ok(_) => {},
            Err(e) => {
                return Err(e);
            },
        }
        let ghost own = tx_steps(tail[0])->Ok_0;
        if per_tx {
            let ghost prior = steps@;
            steps.push(Step::EmitRoot);
            assert(steps_view(steps@) =~= steps_view(prior).push(StepModel::EmitRoot));
        }
        proof {
            let now = steps_view(steps@);
            assert(now =~= done + own + trace_end(per_tx));
            assert forall|rest: Seq<StepModel>| done + (own + trace_end(per_tx) + rest)
                == #[trigger] (now + rest) by {
                assert(done + (own + trace_end(per_tx) + rest) =~= now + rest);
            }
        }
        i += 1;
    }
    if !per_tx {
        let ghost prior = steps@;
        steps.push(Step::EmitRoot);
        assert(steps_view(steps@) =~= steps_view(prior) + batch_end(per_tx));
    } else {
        assert(steps_view(steps@) + batch_end(per_tx) =~= steps_view(steps@));
    }
    Ok(steps)
}

/// Checks a request to replay a batch and lays out its steps.
fn prepare(
    service: &MerkleService,
    root: &[u8],
    txs: &Vec<ApplyTxTrace>,
    session: Option<&str>,
    per_tx: bool,
) -> (r: Result<Batch, Error>)
    ensures
        match apply_spec(service@, root@, traces_view(txs@), text_of(session), per_tx) {
            Ok(batch) => r matches Ok(out) && out@ == batch,
            Err(m) => r matches Err(e) && e@ == m,
        },
{
    let root = to_bytes32(root)?;
    let target = get_db(service, session)?;
    let steps = plan_steps(txs, per_tx)?;
    Ok(Batch { target, root, steps })
}

/// Lays out the replay of `txs` from `root` with the root read after every
/// trace: carried out in order, the steps yield one root per trace.
///
/// Nothing is handed out unless the root is 32 bytes, the store is open, the
/// session (if one is named) is live, and every field of every trace is well
/// formed; the first check that fails is the failure returned.
pub fn apply_txs(
    service: &MerkleService,
    root: &[u8],
    txs: &Vec<ApplyTxTrace>,
    session: Option<&str>,
) -> (r: Result<Batch, Error>)
    ensures
        match apply_spec(service@, root@, traces_view(txs@), text_of(session), true) {
            Ok(batch) => r matches Ok(out) && out@ == batch,
            Err(m) => r matches Err(e) && e@ == m,
        },
{
    prepare(service, root, txs, session, true)
}

/// Lays out the replay of `txs` from `root` with the root read once, after the
/// last trace: carried out in order, the steps make the same changes as those of
/// [`apply_txs`] and yield the final root alone.
pub fn apply_txs_final(
    service: &MerkleService,
    root: &[u8],
    txs: &Vec<ApplyTxTrace>,
    session: Option<&str>,
) -> (r: Result<Batch, Error>)
    ensures
        match apply_spec(service@, root@, traces_view(txs@), text_of(session), false) {
            Ok(batch) => r matches Ok(out) && out@ == batch,
            Err(m) => r matches Err(e) && e@ == m,
        },
{
    prepare(service, root, txs, session, false)
}

/// What carrying out `steps` in order comes to, on an engine whose state is `S`:
/// `apply` is what a payload update or a leaf write does to the state, and
/// `root_of` the root that the engine reports in a state. The result is the state
/// at the end and the roots that were read, in order.
pub open spec fn run_steps<S>(
    apply: spec_fn(S, StepModel) -> S,
    root_of: spec_fn(S) -> Seq<u8>,
    state: S,
    steps: Seq<StepModel>,
) -> (S, Seq<Seq<u8>>)
    decreases steps.len(),
{
    if steps.len() == 0 {
        (state, Seq::empty())
    } else if steps[0] is EmitRoot {
        let rest = run_steps(apply, root_of, state, steps.skip(1));
        (rest.0, seq![root_of(state)] + rest.1)
    } else {
        run_steps(apply, root_of, apply(state, steps[0]), steps.skip(1))
    }
}

/// No step of `steps` reads the root.
pub open spec fn writes_only(steps: Seq<StepModel>) -> bool {
    forall|i: int| 0 <= i < steps.len() ==> !((#[trigger] steps[i]) is EmitRoot)
}

/// Carrying out one list of steps and then another is carrying out both.
proof fn lemma_run_concat<S>(
    apply: spec_fn(S, StepModel) -> S,
    root_of: spec_fn(S) -> Seq<u8>,
    state: S,
    a: Seq<StepModel>,
    b: Seq<StepModel>,
)
    ensures
        ({
            let first = run_steps(apply, root_of, state, a);
            let second = run_steps(apply, root_of, first.0, b);
            run_steps(apply, root_of, state, a + b) == (second.0, first.1 + second.1)
        }),
    decreases a.len(),
{
    let first = run_steps(apply, root_of, state, a);
    let second = run_steps(apply, root_of, first.0, b);
    if a.len() == 0 {
        assert(a + b =~= b);
        assert(first.1 + second.1 =~= second.1);
    } else {
        assert((a + b)[0] == a[0]);
        assert((a + b).skip(1) =~= a.skip(1) + b);
        if a[0] is EmitRoot {
            lemma_run_concat(apply, root_of, state, a.skip(1), b);
            let rest = run_steps(apply, root_of, state, a.skip(1));
            assert(seq![root_of(state)] + (rest.1 + second.1) =~= (seq![root_of(state)] + rest.1)
                + second.1);
        } else {
            lemma_run_concat(apply, root_of, apply(state, a[0]), a.skip(1), b);
        }
    }
}

/// Reading the root changes nothing and yields the root of the state as it is.
proof fn lemma_run_reading<S>(
    apply: spec_fn(S, StepModel) -> S,
    root_of: spec_fn(S) -> Seq<u8>,
    state: S,
)
    ensures
        run_steps(apply, root_of, state, seq![StepModel::EmitRoot]) == (
            state,
            seq![root_of(state)],
        ),
{
    let reading = seq![StepModel::EmitRoot];
    assert(reading.skip(1) =~= Seq::<StepModel>::empty());
    assert(run_steps(apply, root_of, state, reading.skip(1)) == (state, Seq::<Seq<u8>>::empty()));
    assert(seq![root_of(state)] + Seq::<Seq<u8>>::empty() =~= seq![root_of(state)]);
}

/// Steps that do not read the root yield no root.
proof fn lemma_writes_yield_no_root<S>(
    apply: spec_fn(S, StepModel) -> S,
    root_of: spec_fn(S) -> Seq<u8>,
    state: S,
    steps: Seq<StepModel>,
)
    requires
        writes_only(steps),
    ensures
        run_steps(apply, root_of, state, steps).1 == Seq::<Seq<u8>>::empty(),
    decreases steps.len(),
{
    if steps.len() > 0 {
        assert(!(steps[0] is EmitRoot));
        assert forall|i: int| 0 <= i < steps.skip(1).len() implies !((#[trigger] steps.skip(
            1,
        )[i]) is EmitRoot) by {
            assert(steps.skip(1)[i] == steps[i + 1]);
        }
        lemma_writes_yield_no_root(apply, root_of, apply(state, steps[0]), steps.skip(1));
    }
}

proof fn lemma_updates_write_only(updates: Seq<ApplyRecordUpdateModel>)
    requires
        decode_updates(updates) is Ok,
    ensures
        writes_only(decode_updates(updates)->Ok_0),
    decreases updates.len(),
{
    if updates.len() > 0 {
        lemma_updates_write_only(updates.skip(1));
    }
}

proof fn lemma_writes_write_only(writes: Seq<ApplyLeafWriteModel>)
    requires
        decode_writes(writes) is Ok,
    ensures
        writes_only(decode_writes(writes)->Ok_0),
    decreases writes.len(),
{
    if writes.len() > 0 {
        lemma_writes_write_only(writes.skip(1));
    }
}

/// The steps of a trace change the target and read no root.
pub proof fn lemma_tx_steps_write_only(tx: ApplyTxTraceModel)
    requires
        tx_steps(tx) is Ok,
    ensures
        writes_only(tx_steps(tx)->Ok_0),
{
    lemma_updates_write_only(tx.update_records);
    lemma_writes_write_only(tx.writes);
}

/// Whether a batch is accepted does not depend on which roots are asked for, and
/// neither does the failure of one that is refused.
pub proof fn lemma_plan_same_checks(txs: Seq<ApplyTxTraceModel>)
    ensures
        plan(txs, true) is Ok <==> plan(txs, false) is Ok,
        plan(txs, true) is Err ==> plan(txs, false) == plan(txs, true),
    decreases txs.len(),
{
    if txs.len() > 0 {
        lemma_plan_same_checks(txs.skip(1));
    }
}

/// Where a batch is accepted, so is every batch made of its first traces.
pub proof fn lemma_plan_prefix(txs: Seq<ApplyTxTraceModel>, n: int, per_tx: bool)
    requires
        plan(txs, per_tx) is Ok,
        0 <= n <= txs.len(),
    ensures
        plan(txs.subrange(0, n), per_tx) is Ok,
    decreases txs.len(),
{
    if n > 0 {
        let prefix = txs.subrange(0, n);
        assert(prefix[0] == txs[0]);
        assert(prefix.skip(1) =~= txs.skip(1).subrange(0, n - 1));
        lemma_plan_prefix(txs.skip(1), n - 1, per_tx);
    } else {
        assert(txs.subrange(0, n) =~= Seq::<ApplyTxTraceModel>::empty());
    }
}

/// Asking for every root and asking for the final root alone replay the same
/// batch: on any engine and from any state, both end in the same state; the
/// first yields one root per trace, the second exactly one root, the root of the
/// state at the end; and the last of the per-trace roots is that root.
pub proof fn law_final_root_is_last_root<S>(
    apply: spec_fn(S, StepModel) -> S,
    root_of: spec_fn(S) -> Seq<u8>,
    state: S,
    txs: Seq<ApplyTxTraceModel>,
)
    requires
        plan(txs, true) is Ok,
    ensures
        plan(txs, false) is Ok,
        ({
            let each = run_steps(apply, root_of, state, plan(txs, true)->Ok_0);
            let last = run_steps(apply, root_of, state, plan(txs, false)->Ok_0);
            &&& each.0 == last.0
            &&& each.1.len() == txs.len()
            &&& last.1 == seq![root_of(last.0)]
            &&& txs.len() > 0 ==> each.1.last() == last.1[0]
        }),
    decreases txs.len(),
{
    lemma_plan_same_checks(txs);
    if txs.len() == 0 {
        lemma_run_reading(apply, root_of, state);
    } else {
        let own = tx_steps(txs[0])->Ok_0;
        let tail = txs.skip(1);
        lemma_tx_steps_write_only(txs[0]);
        lemma_writes_yield_no_root(apply, root_of, state, own);
        let mid = run_steps(apply, root_of, state, own).0;
        law_final_root_is_last_root(apply, root_of, mid, tail);
        let rest_each = plan(tail, true)->Ok_0;
        let rest_last = plan(tail, false)->Ok_0;
        // every root: own steps, one reading, the rest
        let reading = seq![StepModel::EmitRoot];
        lemma_run_concat(apply, root_of, state, own + reading, rest_each);
        lemma_run_concat(apply, root_of, state, own, reading);
        lemma_run_reading(apply, root_of, mid);
        let tail_each = run_steps(apply, root_of, mid, rest_each);
        let each = run_steps(apply, root_of, state, plan(txs, true)->Ok_0);
        assert(each.1 =~= seq![root_of(mid)] + tail_each.1);
        // final root: own steps, the rest
        assert(own + Seq::<StepModel>::empty() =~= own);
        lemma_run_concat(apply, root_of, state, own, rest_last);
        let last = run_steps(apply, root_of, state, plan(txs, false)->Ok_0);
        assert(last.1 =~= seq![root_of(last.0)]);
        if tail.len() > 0 {
            assert(each.1.last() == tail_each.1.last());
        }
    }
}

/// Each root of a per-trace replay is the final root of the replay that stops
/// there: on any engine and from any state, the root read after the trace at
/// `i` is the one root that replaying the traces up to and including `i` for
/// the final root alone yields.
pub proof fn law_each_root_is_a_final_root<S>(
    apply: spec_fn(S, StepModel) -> S,
    root_of: spec_fn(S) -> Seq<u8>,
    state: S,
    txs: Seq<ApplyTxTraceModel>,
    i: int,
)
    requires
        plan(txs, true) is Ok,
        0 <= i < txs.len(),
    ensures
        plan(txs.subrange(0, i + 1), false) is Ok,
        run_steps(apply, root_of, state, plan(txs, true)->Ok_0).1.len() == txs.len(),
        run_steps(apply, root_of, state, plan(txs, true)->Ok_0).1[i] == run_steps(
            apply,
            root_of,
            state,
            plan(txs.subrange(0, i + 1), false)->Ok_0,
        ).1[0],
    decreases txs.len(),
{
    lemma_plan_same_checks(txs);
    lemma_plan_prefix(txs, i + 1, false);
    law_final_root_is_last_root(apply, root_of, state, txs);
    let own = tx_steps(txs[0])->Ok_0;
    let tail = txs.skip(1);
    let prefix = txs.subrange(0, i + 1);
    assert(prefix[0] == txs[0]);
    assert(prefix.skip(1) =~= tail.subrange(0, i));
    lemma_tx_steps_write_only(txs[0]);
    lemma_writes_yield_no_root(apply, root_of, state, own);
    let mid = run_steps(apply, root_of, state, own).0;
    let reading = seq![StepModel::EmitRoot];
    let rest_each = plan(tail, true)->Ok_0;
    lemma_run_concat(apply, root_of, state, own + reading, rest_each);
    lemma_run_concat(apply, root_of, state, own, reading);
    lemma_run_reading(apply, root_of, mid);
    let tail_each = run_steps(apply, root_of, mid, rest_each);
    let each = run_steps(apply, root_of, state, plan(txs, true)->Ok_0);
    assert(each.1 =~= seq![root_of(mid)] + tail_each.1);
    let rest_prefix = plan(prefix.skip(1), false)->Ok_0;
    assert(own + Seq::<StepModel>::empty() =~= own);
    lemma_run_concat(apply, root_of, state, own, rest_prefix);
    if i == 0 {
        assert(prefix.skip(1) =~= Seq::<ApplyTxTraceModel>::empty());
    } else {
        law_each_root_is_a_final_root(apply, root_of, mid, tail, i - 1);
        law_final_root_is_last_root(apply, root_of, mid, tail);
        assert(each.1[i] == tail_each.1[i - 1]);
    }
}

/// A payload update with a 32-byte hash and limbs that are all unsigned 64-bit
/// decimals.
pub open spec fn well_formed_update(update: ApplyRecordUpdateModel) -> bool {
    update.hash.len() == 32 && all_limbs_valid(update.data)
}

/// A leaf write with an unsigned 64-bit decimal index and 32 bytes of data.
pub open spec fn well_formed_write(write: ApplyLeafWriteModel) -> bool {
    decimal_u64(write.index) is Some && write.data.len() == 32
}

/// A trace in which every payload update and every leaf write is well formed.
pub open spec fn well_formed_tx(tx: ApplyTxTraceModel) -> bool {
    &&& forall|i: int|
        0 <= i < tx.update_records.len() ==> well_formed_update(#[trigger] tx.update_records[i])
    &&& forall|i: int| 0 <= i < tx.writes.len() ==> well_formed_write(#[trigger] tx.writes[i])
}

proof fn lemma_decode_updates_cases(updates: Seq<ApplyRecordUpdateModel>)
    ensures
        decode_updates(updates) is Ok <==> forall|i: int|
            0 <= i < updates.len() ==> well_formed_update(#[trigger] updates[i]),
        decode_updates(updates) matches Err(e) ==> e.kind == ErrorKind::InvalidArgument,
    decreases updates.len(),
{
    if updates.len() > 0 {
        let tail = updates.skip(1);
        lemma_decode_updates_cases(tail);
        lemma_parse_limbs_cases(updates[0].data);
        if forall|i: int| 0 <= i < updates.len() ==> well_formed_update(#[trigger] updates[i]) {
            assert(well_formed_update(updates[0]));
            assert forall|i: int| 0 <= i < tail.len() implies well_formed_update(
                #[trigger] tail[i],
            ) by {
                assert(well_formed_update(updates[i + 1]));
            }
        }
        if well_formed_update(updates[0]) && forall|i: int|
            0 <= i < tail.len() ==> well_formed_update(#[trigger] tail[i]) {
            assert forall|i: int| 0 <= i < updates.len() implies well_formed_update(
                #[trigger] updates[i],
            ) by {
                if i > 0 {
                    assert(well_formed_update(tail[i - 1]));
                }
            }
        }
    }
}

proof fn lemma_decode_writes_cases(writes: Seq<ApplyLeafWriteModel>)
    ensures
        decode_writes(writes) is Ok <==> forall|i: int|
            0 <= i < writes.len() ==> well_formed_write(#[trigger] writes[i]),
        decode_writes(writes) matches Err(e) ==> e.kind == ErrorKind::InvalidArgument,
    decreases writes.len(),
{
    if writes.len() > 0 {
        let tail = writes.skip(1);
        lemma_decode_writes_cases(tail);
        if forall|i: int| 0 <= i < writes.len() ==> well_formed_write(#[trigger] writes[i]) {
            assert(well_formed_write(writes[0]));
            assert forall|i: int| 0 <= i < tail.len() implies well_formed_write(
                #[trigger] tail[i],
            ) by {
                assert(well_formed_write(writes[i + 1]));
            }
        }
        if well_formed_write(writes[0]) && forall|i: int|
            0 <= i < tail.len() ==> well_formed_write(#[trigger] tail[i]) {
            assert forall|i: int| 0 <= i < writes.len() implies well_formed_write(
                #[trigger] writes[i],
            ) by {
                if i > 0 {
                    assert(well_formed_write(tail[i - 1]));
                }
            }
        }
    }
}

/// A batch is accepted exactly if every field of every trace is well formed, and
/// one that is refused is refused as an invalid argument.
pub proof fn lemma_plan_cases(txs: Seq<ApplyTxTraceModel>, per_tx: bool)
    ensures
        plan(txs, per_tx) is Ok <==> forall|i: int|
            0 <= i < txs.len() ==> well_formed_tx(#[trigger] txs[i]),
        plan(txs, per_tx) matches Err(e) ==> e.kind == ErrorKind::InvalidArgument,
    decreases txs.len(),
{
    if txs.len() > 0 {
        let tail = txs.skip(1);
        lemma_plan_cases(tail, per_tx);
        lemma_decode_updates_cases(txs[0].update_records);
        lemma_decode_writes_cases(txs[0].writes);
        if forall|i: int| 0 <= i < txs.len() ==> well_formed_tx(#[trigger] txs[i]) {
            assert(well_formed_tx(txs[0]));
            assert forall|i: int| 0 <= i < tail.len() implies well_formed_tx(
                #[trigger] tail[i],
            ) by {
                assert(well_formed_tx(txs[i + 1]));
            }
        }
        if well_formed_tx(txs[0]) && forall|i: int|
            0 <= i < tail.len() ==> well_formed_tx(#[trigger] tail[i]) {
            assert forall|i: int| 0 <= i < txs.len() implies well_formed_tx(#[trigger] txs[i]) by {
                if i > 0 {
                    assert(well_formed_tx(tail[i - 1]));
                }
            }
        }
    }
}

/// A batch with anything malformed in it is refused whole.
///
/// A request to replay a batch is accepted exactly if the root is 32 bytes, the
/// store is open and the session (if one is named) live, and every field of
/// every trace is well formed. Where the root is not 32 bytes, or the target is
/// found and some field of some trace is malformed, the request fails as an
/// invalid argument; and a request that fails hands out no step at all, so
/// nothing is changed on its account.
pub proof fn law_malformed_batch_is_refused(
    service: ServiceModel,
    root: Seq<u8>,
    txs: Seq<ApplyTxTraceModel>,
    session: Option<Seq<char>>,
    per_tx: bool,
)
    ensures
        apply_spec(service, root, txs, session, per_tx) is Ok <==> {
            &&& root.len() == 32
            &&& service.get_db(session) is Ok
            &&& forall|i: int| 0 <= i < txs.len() ==> well_formed_tx(#[trigger] txs[i])
        },
        root.len() != 32 || (service.get_db(session) is Ok && exists|i: int|
            0 <= i < txs.len() && !well_formed_tx(#[trigger] txs[i])) ==> (apply_spec(
            service,
            root,
            txs,
            session,
            per_tx,
        ) matches Err(e) && e.kind == ErrorKind::InvalidArgument),
{
    lemma_plan_cases(txs, per_tx);
}

} // verus!
