//! Single reads and writes of leaves and payloads.
//!
//! Each operation comes in two parts. The first checks what was handed in and
//! says what has to be done on which target; the caller does it on the tree or
//! payload engine. The second, where there is one, turns what the engine gave
//! back into what crosses the boundary.
use crate::codec::{
    all_limbs_valid, decode_limbs, decode_limbs_spec, encode_limbs, encode_limbs_spec,
    lemma_limb_texts_round_trip, lemma_parse_limbs_cases, lemma_payload_round_trip, limb_texts,
    parse_limbs, parse_u64_decimal, texts, to_bytes32,
};
use crate::decimal::decimal_u64;
use crate::error::{invalid_decimal, invalid_length, Error, ErrorKind, ErrorModel};
use crate::record::{DataHashRecord, DataRecordModel};
use crate::service::{get_db, text_of, MerkleService, ServiceModel, Target};
use vstd::prelude::*;

verus! {

/// A leaf write that passed every check.
#[derive(Clone, Copy, Debug, PartialEq, Eq)]
pub struct LeafUpdate {
    pub target: Target,
    pub root: [u8; 32],
    pub index: u64,
    pub data: [u8; 32],
}

/// What a [`LeafUpdate`] holds.
pub struct LeafUpdateModel {
    pub target: Target,
    pub root: Seq<u8>,
    pub index: u64,
    pub data: Seq<u8>,
}

impl View for LeafUpdate {
    type V = LeafUpdateModel;

    open spec fn view(&self) -> LeafUpdateModel {
        LeafUpdateModel {
            target: self.target,
            root: self.root@,
            index: self.index,
            data: self.data@,
        }
    }
}

/// A leaf read that passed every check.
#[derive(Clone, Copy, Debug, PartialEq, Eq)]
pub struct LeafQuery {
    pub target: Target,
    pub root: [u8; 32],
    pub index: u64,
}

/// What a [`LeafQuery`] holds.
pub struct LeafQueryModel {
    pub target: Target,
    pub root: Seq<u8>,
    pub index: u64,
}

impl View for LeafQuery {
    type V = LeafQueryModel;

    open spec fn view(&self) -> LeafQueryModel {
        LeafQueryModel { target: self.target, root: self.root@, index: self.index }
    }
}

/// A payload write that passed every check.
#[derive(Debug, PartialEq, Eq)]
pub struct RecordUpdate {
    pub target: Target,
    pub record: DataHashRecord,
}

/// What a [`RecordUpdate`] holds.
pub struct RecordUpdateModel {
    pub target: Target,
    pub record: DataRecordModel,
}

impl View for RecordUpdate {
    type V = RecordUpdateModel;

    open spec fn view(&self) -> RecordUpdateModel {
        RecordUpdateModel { target: self.target, record: self.record@ }
    }
}

/// A payload read that passed every check.
#[derive(Clone, Copy, Debug, PartialEq, Eq)]
pub struct RecordQuery {
    pub target: Target,
    pub hash: [u8; 32],
}

/// What a [`RecordQuery`] holds.
pub struct RecordQueryModel {
    pub target: Target,
    pub hash: Seq<u8>,
}

impl View for RecordQuery {
    type V = RecordQueryModel;

    open spec fn view(&self) -> RecordQueryModel {
        RecordQueryModel { target: self.target, hash: self.hash@ }
    }
}

/// What a request to write a leaf comes to. The checks, in order: the root is 32
/// bytes, the index an unsigned 64-bit decimal, the data 32 bytes, the store
/// open and the session (if one is named) live.
pub open spec fn update_leaf_spec(
    service: ServiceModel,
    root: Seq<u8>,
    index: Seq<char>,
    data: Seq<u8>,
    session: Option<Seq<char>>,
) -> Result<LeafUpdateModel, ErrorModel> {
    if root.len() != 32 {
        Err(invalid_length(root.len()))
    } else {
        match decimal_u64(index) {
            None => Err(invalid_decimal("index"@, index)),
            Some(i) => if data.len() != 32 {
                Err(invalid_length(data.len()))
            } else {
                match service.get_db(session) {
                    Ok(target) => Ok(LeafUpdateModel { target, root, index: i, data }),
                    Err(e) => Err(e),
                }
            },
        }
    }
}

/// What a request to read a leaf comes to. The checks, in order: the root is 32
/// bytes, the index an unsigned 64-bit decimal, the store open and the session
/// (if one is named) live.
pub open spec fn get_leaf_spec(
    service: ServiceModel,
    root: Seq<u8>,
    index: Seq<char>,
    session: Option<Seq<char>>,
) -> Result<LeafQueryModel, ErrorModel> {
    if root.len() != 32 {
        Err(invalid_length(root.len()))
    } else {
        match decimal_u64(index) {
            None => Err(invalid_decimal("index"@, index)),
            Some(i) => match service.get_db(session) {
                Ok(target) => Ok(LeafQueryModel { target, root, index: i }),
                Err(e) => Err(e),
            },
        }
    }
}

/// What a request to write a payload comes to. The checks, in order: the hash is
/// 32 bytes, the store open and the session (if one is named) live, every limb
/// an unsigned 64-bit decimal.
pub open spec fn update_record_spec(
    service: ServiceModel,
    hash: Seq<u8>,
    data: Seq<Seq<char>>,
    session: Option<Seq<char>>,
) -> Result<RecordUpdateModel, ErrorModel> {
    if hash.len() != 32 {
        Err(invalid_length(hash.len()))
    } else {
        match service.get_db(session) {
            Err(e) => Err(e),
            Ok(target) => match encode_limbs_spec(data) {
                Ok(bytes) => Ok(
                    RecordUpdateModel { target, record: DataRecordModel { hash, data: bytes } },
                ),
                Err(e) => Err(e),
            },
        }
    }
}

/// What a request to read a payload comes to. The checks, in order: the hash is
/// 32 bytes, the store open and the session (if one is named) live.
pub open spec fn get_record_spec(
    service: ServiceModel,
    hash: Seq<u8>,
    session: Option<Seq<char>>,
) -> Result<RecordQueryModel, ErrorModel> {
    if hash.len() != 32 {
        Err(invalid_length(hash.len()))
    } else {
        match service.get_db(session) {
            Ok(target) => Ok(RecordQueryModel { target, hash }),
            Err(e) => Err(e),
        }
    }
}

/// The value of a leaf as it crosses the boundary: its 32 bytes, or 32 zero
/// bytes for a leaf that was never written.
pub open spec fn leaf_value_spec(data: Option<[u8; 32]>) -> Seq<u8> {
    match data {
        Some(bytes) => bytes@,
        None => Seq::new(32, |i: int| 0u8),
    }
}

/// The limbs of a payload as they cross the boundary: none for a payload that
/// is not there.
pub open spec fn record_limbs_spec(record: Option<DataRecordModel>) -> Seq<Seq<char>> {
    match record {
        Some(r) => decode_limbs_spec(r.data),
        None => Seq::empty(),
    }
}

/// Checks a request to write `data` to the leaf at `index` of the tree with the
/// root `root`. Nothing is written here: the caller writes through the tree
/// engine on the target returned, and gets the new root from it.
pub fn update_leaf(
    service: &MerkleService,
    root: &[u8],
    index: &str,
    data: &[u8],
    session: Option<&str>,
) -> (r: Result<LeafUpdate, Error>)
    ensures
        match update_leaf_spec(service@, root@, index@, data@, text_of(session)) {
            Ok(update) => r matches Ok(out) && out@ == update,
            Err(m) => r matches Err(e) && e@ == m,
        },
{
    let root = to_bytes32(root)?;
    let index = parse_u64_decimal(index, "index")?;
    let data = to_bytes32(data)?;
    let target = get_db(service, session)?;
    Ok(LeafUpdate { target, root, index, data })
}

/// Checks a request to read the leaf at `index` of the tree with the root `root`.
pub fn get_leaf(service: &MerkleService, root: &[u8], index: &str, session: Option<&str>) -> (r:
    Result<LeafQuery, Error>)
    ensures
        match get_leaf_spec(service@, root@, index@, text_of(session)) {
            Ok(query) => r matches Ok(out) && out@ == query,
            Err(m) => r matches Err(e) && e@ == m,
        },
{
    let root = to_bytes32(root)?;
    let index = parse_u64_decimal(index, "index")?;
    let target = get_db(service, session)?;
    Ok(LeafQuery { target, root, index })
}

/// The value of a leaf that the tree engine read: zero-filled if the leaf was
/// never written.
pub fn leaf_value(data: Option<[u8; 32]>) -> (value: [u8; 32])
    ensures
        value@ == leaf_value_spec(data),
{
    match data {
        Some(bytes) => bytes,
        None => {
            let zeros = [0u8;32];
            assert(zeros@ =~= Seq::new(32, |i: int| 0u8));
            zeros
        },
    }
}

/// Checks a request to store the payload `data`, given as decimal limbs, under
/// `hash`. Nothing is stored here: the caller stores the record through the
/// payload engine on the target returned.
pub fn update_record(
    service: &MerkleService,
    hash: &[u8],
    data: &Vec<String>,
    session: Option<&str>,
) -> (r: Result<RecordUpdate, Error>)
    ensures
        match update_record_spec(service@, hash@, texts(data@), text_of(session)) {
            Ok(update) => r matches Ok(out) && out@ == update,
            Err(m) => r matches Err(e) && e@ == m,
        },
{
    let hash = to_bytes32(hash)?;
    let target = get_db(service, session)?;
    let data = encode_limbs(data)?;
    Ok(RecordUpdate { target, record: DataHashRecord { hash, data } })
}

/// Checks a request to read the payload stored under `hash`.
pub fn get_record(service: &MerkleService, hash: &[u8], session: Option<&str>) -> (r: Result<
    RecordQuery,
    Error,
>)
    ensures
        match get_record_spec(service@, hash@, text_of(session)) {
            Ok(query) => r matches Ok(out) && out@ == query,
            Err(m) => r matches Err(e) && e@ == m,
        },
{
    let hash = to_bytes32(hash)?;
    let target = get_db(service, session)?;
    Ok(RecordQuery { target, hash })
}

/// The limbs of a payload that the payload engine read: empty if there is none.
pub fn record_limbs(record: Option<&DataHashRecord>) -> (limbs: Vec<String>)
    ensures
        texts(limbs@) == record_limbs_spec(
            match record {
                Some(r) => Some(r@),
                None => None,
            },
        ),
{
    match record {
        Some(r) => decode_limbs(r.data.as_slice()),
        None => {
            let limbs: Vec<String> = Vec::new();
            assert(texts(limbs@) =~= Seq::<Seq<char>>::empty());
            limbs
        },
    }
}

/// A payload comes back as it went in.
///
/// Where a payload given as the limbs `limbs` is accepted, the record that is
/// stored for it reads back as the canonical texts of the same numbers; and
/// where the limbs were canonical texts to begin with (no sign, no leading
/// zeros), it reads back as `limbs` itself. This covers every 64-bit value,
/// 0 and 2^64 - 1 included.
pub proof fn law_record_round_trip(hash: Seq<u8>, limbs: Seq<Seq<char>>, values: Seq<u64>)
    requires
        parse_limbs(limbs) == Ok::<Seq<u64>, ErrorModel>(values),
    ensures
        encode_limbs_spec(limbs) is Ok,
        ({
            let record = DataRecordModel { hash, data: encode_limbs_spec(limbs)->Ok_0 };
            &&& record_limbs_spec(Some(record)) == limb_texts(values)
            &&& parse_limbs(record_limbs_spec(Some(record))) == Ok::<Seq<u64>, ErrorModel>(values)
            &&& limbs == limb_texts(values) ==> record_limbs_spec(Some(record)) == limbs
        }),
        parse_limbs(limb_texts(values)) == Ok::<Seq<u64>, ErrorModel>(values),
{
    lemma_payload_round_trip(limbs);
    lemma_limb_texts_round_trip(values);
}

/// A malformed request is refused before anything is done.
///
/// In what follows `key` is the root of a leaf request and the hash of a payload
/// request. Each of the four requests is accepted exactly if its buffers are 32
/// bytes, its numbers unsigned 64-bit decimals, the store open and the session
/// (if one is named) live. A buffer of another length fails the request as an
/// invalid argument whatever else holds, and so does text that is no decimal
/// number once the checks before it have passed. None of the four changes the
/// service state, and a request that fails names nothing for the caller to do.
pub proof fn law_malformed_request_is_refused(
    service: ServiceModel,
    key: Seq<u8>,
    index: Seq<char>,
    data: Seq<u8>,
    limbs: Seq<Seq<char>>,
    session: Option<Seq<char>>,
)
    ensures
        update_leaf_spec(service, key, index, data, session) is Ok <==> key.len() == 32
            && decimal_u64(index) is Some && data.len() == 32 && service.get_db(session) is Ok,
        get_leaf_spec(service, key, index, session) is Ok <==> key.len() == 32 && decimal_u64(
            index,
        ) is Some && service.get_db(session) is Ok,
        update_record_spec(service, key, limbs, session) is Ok <==> key.len() == 32
            && service.get_db(session) is Ok && all_limbs_valid(limbs),
        get_record_spec(service, key, session) is Ok <==> key.len() == 32 && service.get_db(
            session,
        ) is Ok,
        key.len() != 32 ==> {
            &&& update_leaf_spec(service, key, index, data, session) == Err::<
                LeafUpdateModel,
                ErrorModel,
            >(invalid_length(key.len()))
            &&& get_leaf_spec(service, key, index, session) == Err::<LeafQueryModel, ErrorModel>(
                invalid_length(key.len()),
            )
            &&& update_record_spec(service, key, limbs, session) == Err::<
                RecordUpdateModel,
                ErrorModel,
            >(invalid_length(key.len()))
            &&& get_record_spec(service, key, session) == Err::<RecordQueryModel, ErrorModel>(
                invalid_length(key.len()),
            )
        },
        key.len() == 32 && decimal_u64(index) is None ==> {
            &&& update_leaf_spec(service, key, index, data, session) == Err::<
                LeafUpdateModel,
                ErrorModel,
            >(invalid_decimal("index"@, index))
            &&& get_leaf_spec(service, key, index, session) == Err::<LeafQueryModel, ErrorModel>(
                invalid_decimal("index"@, index),
            )
        },
        key.len() == 32 && decimal_u64(index) is Some && data.len() != 32 ==> update_leaf_spec(
            service,
            key,
            index,
            data,
            session,
        ) == Err::<LeafUpdateModel, ErrorModel>(invalid_length(data.len())),
        key.len() == 32 && service.get_db(session) is Ok && !all_limbs_valid(limbs) ==> (
        update_record_spec(service, key, limbs, session) matches Err(e) && e.kind
            == ErrorKind::InvalidArgument),
{
    lemma_parse_limbs_cases(limbs);
}

} // verus!
