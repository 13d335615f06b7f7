//! Validation and encoding of what crosses the boundary: 32-byte buffers, decimal
//! numbers, and payloads given as lists of decimal 64-bit limbs.
use crate::decimal::{
    decimal_digits, decimal_u64, format_decimal, lemma_decimal_round_trip, parse_decimal,
};
use crate::error::{invalid_decimal, invalid_length, Error, ErrorModel};
use vstd::bytes::{
    lemma_auto_spec_u64_to_from_le_bytes, spec_u64_from_le_bytes, spec_u64_to_le_bytes,
    u64_from_le_bytes, u64_to_le_bytes,
};
use vstd::prelude::*;
use vstd::slice::slice_subrange;

verus! {

/// The texts held by a list of strings.
pub open spec fn texts(v: Seq<String>) -> Seq<Seq<char>> {
    Seq::new(v.len(), |i: int| v[i]@)
}

/// The numbers that a list of decimal limbs denotes. The limbs are read in order,
/// and the first one that is no unsigned 64-bit decimal fails the whole list.
pub open spec fn parse_limbs(limbs: Seq<Seq<char>>) -> Result<Seq<u64>, ErrorModel>
    decreases limbs.len(),
{
    if limbs.len() == 0 {
        Ok(Seq::empty())
    } else {
        match decimal_u64(limbs[0]) {
            None => Err(invalid_decimal("data"@, limbs[0])),
            Some(v) => match parse_limbs(limbs.skip(1)) {
                Ok(rest) => Ok(seq![v] + rest),
                Err(e) => Err(e),
            },
        }
    }
}

/// The payload buffer that a list of decimal limbs denotes.
pub open spec fn encode_limbs_spec(limbs: Seq<Seq<char>>) -> Result<Seq<u8>, ErrorModel> {
    match parse_limbs(limbs) {
        Ok(values) => Ok(limbs_to_bytes(values)),
        Err(e) => Err(e),
    }
}

/// The list of decimal limbs that a payload buffer is shown as.
pub open spec fn decode_limbs_spec(bytes: Seq<u8>) -> Seq<Seq<char>> {
    limb_texts(bytes_to_limbs(bytes))
}

/// The flat byte buffer for a list of limbs: the little-endian encodings of the
/// limbs, eight bytes each, in order.
pub open spec fn limbs_to_bytes(limbs: Seq<u64>) -> Seq<u8>
    decreases limbs.len(),
{
    if limbs.len() == 0 {
        Seq::empty()
    } else {
        limbs_to_bytes(limbs.drop_last()) + spec_u64_to_le_bytes(limbs.last())
    }
}

/// The limbs of a byte buffer: one per complete group of eight bytes, read
/// little-endian. Bytes after the last complete group are left out.
pub open spec fn bytes_to_limbs(bytes: Seq<u8>) -> Seq<u64> {
    Seq::new(
        (bytes.len() / 8) as nat,
        |i: int| spec_u64_from_le_bytes(bytes.subrange(8 * i, 8 * i + 8)),
    )
}

/// The canonical decimal text of each limb.
pub open spec fn limb_texts(limbs: Seq<u64>) -> Seq<Seq<char>> {
    Seq::new(limbs.len(), |i: int| decimal_digits(limbs[i] as nat))
}

/// The buffer of `n` limbs is `8 * n` bytes long, and its `i`-th group of eight
/// bytes is the encoding of the `i`-th limb.
pub proof fn lemma_limbs_to_bytes_layout(limbs: Seq<u64>)
    ensures
        limbs_to_bytes(limbs).len() == 8 * limbs.len(),
        forall|i: int|
            0 <= i < limbs.len() ==> #[trigger] limbs_to_bytes(limbs).subrange(8 * i, 8 * i + 8)
                == spec_u64_to_le_bytes(limbs[i]),
    decreases limbs.len(),
{
    lemma_auto_spec_u64_to_from_le_bytes();
    if limbs.len() > 0 {
        let head = limbs.drop_last();
        let all = limbs_to_bytes(limbs);
        lemma_limbs_to_bytes_layout(head);
        assert forall|i: int| 0 <= i < limbs.len() implies #[trigger] all.subrange(
            8 * i,
            8 * i + 8,
        ) == spec_u64_to_le_bytes(limbs[i]) by {
            if i < head.len() {
                assert(all.subrange(8 * i, 8 * i + 8) =~= limbs_to_bytes(head).subrange(
                    8 * i,
                    8 * i + 8,
                ));
                assert(head[i] == limbs[i]);
            } else {
                assert(all.subrange(8 * i, 8 * i + 8) =~= spec_u64_to_le_bytes(limbs.last()));
            }
        }
    }
}

/// Decoding the buffer of a list of limbs gives the list back.
pub proof fn lemma_limbs_round_trip(limbs: Seq<u64>)
    ensures
        bytes_to_limbs(limbs_to_bytes(limbs)) == limbs,
{
    lemma_limbs_to_bytes_layout(limbs);
    lemma_auto_spec_u64_to_from_le_bytes();
    let back = bytes_to_limbs(limbs_to_bytes(limbs));
    assert(back.len() == limbs.len());
    assert forall|i: int| 0 <= i < limbs.len() implies back[i] == limbs[i] by {
        assert(limbs_to_bytes(limbs).subrange(8 * i, 8 * i + 8) == spec_u64_to_le_bytes(
            limbs[i],
        ));
    }
    assert(back =~= limbs);
}

/// Every text of the list is an unsigned 64-bit decimal.
pub open spec fn all_limbs_valid(limbs: Seq<Seq<char>>) -> bool {
    forall|i: int| 0 <= i < limbs.len() ==> (#[trigger] decimal_u64(limbs[i])) is Some
}

/// A list of limbs is accepted exactly if every limb is an unsigned 64-bit
/// decimal. What is accepted denotes one number per limb; what is refused is
/// refused for its first limb that is none, as an invalid argument.
pub proof fn lemma_parse_limbs_cases(limbs: Seq<Seq<char>>)
    ensures
        parse_limbs(limbs) is Ok <==> all_limbs_valid(limbs),
        parse_limbs(limbs) matches Ok(values) ==> values.len() == limbs.len() && forall|i: int|
            0 <= i < limbs.len() ==> (#[trigger] decimal_u64(limbs[i])) == Some(values[i]),
        parse_limbs(limbs) matches Err(e) ==> exists|i: int|
            0 <= i < limbs.len() && (#[trigger] decimal_u64(limbs[i])) is None && e
                == invalid_decimal("data"@, limbs[i]) && all_limbs_valid(limbs.subrange(0, i)),
    decreases limbs.len(),
{
    if limbs.len() > 0 {
        let tail = limbs.skip(1);
        lemma_parse_limbs_cases(tail);
        assert forall|i: int| 0 < i < limbs.len() implies limbs[i] == tail[i - 1] by {}
        if all_limbs_valid(limbs) {
            assert(decimal_u64(limbs[0]) is Some);
            assert forall|i: int| 0 <= i < tail.len() implies (#[trigger] decimal_u64(
                tail[i],
            )) is Some by {
                assert(decimal_u64(limbs[i + 1]) is Some);
            }
        }
        if decimal_u64(limbs[0]) is Some && all_limbs_valid(tail) {
            assert forall|i: int| 0 <= i < limbs.len() implies (#[trigger] decimal_u64(
                limbs[i],
            )) is Some by {
                if i > 0 {
                    assert(decimal_u64(tail[i - 1]) is Some);
                }
            }
        }
        match parse_limbs(limbs) {
            Ok(values) => {
                let rest = parse_limbs(tail)->Ok_0;
                assert forall|i: int| 0 <= i < limbs.len() implies (#[trigger] decimal_u64(
                    limbs[i],
                )) == Some(values[i]) by {
                    if i > 0 {
                        assert(decimal_u64(tail[i - 1]) == Some(rest[i - 1]));
                    }
                }
            },
            Err(e) => {
                if decimal_u64(limbs[0]) is None {
                    assert(limbs.subrange(0, 0) =~= Seq::<Seq<char>>::empty());
                } else {
                    let j = choose|j: int|
                        0 <= j < tail.len() && (#[trigger] decimal_u64(tail[j])) is None && e
                            == invalid_decimal("data"@, tail[j]) && all_limbs_valid(
                            tail.subrange(0, j),
                        );
                    let before = limbs.subrange(0, j + 1);
                    assert forall|i: int| 0 <= i < before.len() implies (#[trigger] decimal_u64(
                        before[i],
                    )) is Some by {
                        if i > 0 {
                            assert(before[i] == tail.subrange(0, j)[i - 1]);
                            assert(decimal_u64(tail.subrange(0, j)[i - 1]) is Some);
                        }
                    }
                    assert(decimal_u64(limbs[j + 1]) is None);
                }
            },
        }
    }
}

/// Reading the canonical texts of a list of limbs gives the list back.
pub proof fn lemma_limb_texts_round_trip(limbs: Seq<u64>)
    ensures
        parse_limbs(limb_texts(limbs)) == Ok::<Seq<u64>, ErrorModel>(limbs),
    decreases limbs.len(),
{
    let t = limb_texts(limbs);
    if limbs.len() == 0 {
        assert(limbs =~= Seq::<u64>::empty());
    } else {
        lemma_decimal_round_trip(limbs[0] as nat);
        lemma_limb_texts_round_trip(limbs.skip(1));
        assert(t.skip(1) =~= limb_texts(limbs.skip(1)));
        assert(seq![limbs[0]] + limbs.skip(1) =~= limbs);
    }
}

/// A payload that went in as limbs comes out as the same limbs, each in its
/// canonical text: encoding and then decoding a list of limbs that reads as
/// `values` gives the canonical texts of `values`.
pub proof fn lemma_payload_round_trip(limbs: Seq<Seq<char>>)
    requires
        parse_limbs(limbs) is Ok,
    ensures
        encode_limbs_spec(limbs) is Ok,
        decode_limbs_spec(encode_limbs_spec(limbs)->Ok_0) == limb_texts(
            parse_limbs(limbs)->Ok_0,
        ),
        parse_limbs(decode_limbs_spec(encode_limbs_spec(limbs)->Ok_0)) == parse_limbs(limbs),
{
    let values = parse_limbs(limbs)->Ok_0;
    lemma_limbs_round_trip(values);
    lemma_limb_texts_round_trip(values);
}

/// Checks that a buffer holds exactly 32 bytes and returns them as an array.
pub fn to_bytes32(buf: &[u8]) -> (r: Result<[u8; 32], Error>)
    ensures
        match r {
            Ok(out) => buf@.len() == 32 && out@ == buf@,
            Err(e) => buf@.len() != 32 && e@ == invalid_length(buf@.len()),
        },
{
    if buf.len() != 32 {
        return Err(Error::invalid_length(buf.len()));
    }
    let mut out = [0u8;32];
    let mut i: usize = 0;
    while i < 32
        invariant
            i <= 32,
            buf@.len() == 32,
            forall|j: int| 0 <= j < i ==> out@[j] == buf@[j],
        decreases 32 - i,
    {
        out[i] = buf[i];
        i += 1;
    }
    assert(out@ =~= buf@);
    Ok(out)
}

/// Reads `value` as a base-10 unsigned 64-bit integer; `name` says which field it
/// was given for, and appears in the failure.
pub fn parse_u64_decimal(value: &str, name: &str) -> (r: Result<u64, Error>)
    ensures
        match decimal_u64(value@) {
            Some(v) => r matches Ok(x) && x == v,
            None => r matches Err(e) && e@ == invalid_decimal(name@, value@),
        },
{
    match parse_decimal(value) {
        Some(v) => Ok(v),
        None => Err(Error::invalid_decimal(name, value)),
    }
}

/// Turns a list of decimal limbs into the flat payload buffer.
///
/// Every limb is read before anything is returned; the first limb that is no
/// unsigned 64-bit decimal fails the whole list.
pub fn encode_limbs(limbs: &Vec<String>) -> (r: Result<Vec<u8>, Error>)
    ensures
        match encode_limbs_spec(texts(limbs@)) {
            Ok(bytes) => r matches Ok(out) && out@ == bytes,
            Err(m) => r matches Err(e) && e@ == m,
        },
{
    let ghost t = texts(limbs@);
    let ghost mut values: Seq<u64> = Seq::empty();
    let mut bytes: Vec<u8> = Vec::new();
    let mut i: usize = 0;
    assert(t.skip(0) =~= t);
    while i < limbs.len()
        invariant
            i <= limbs.len(),
            t == texts(limbs@),
            bytes@ == limbs_to_bytes(values),
            parse_limbs(t) == match parse_limbs(t.skip(i as int)) {
                Ok(rest) => Ok::<Seq<u64>, ErrorModel>(values + rest),
                Err(e) => Err(e),
            },
        decreases limbs.len() - i,
    {
        let ghost tail = t.skip(i as int);
        assert(tail[0] == limbs@[i as int]@);
        assert(tail.skip(1) =~= t.skip(i + 1));
        match parse_u64_decimal(limbs[i].as_str(), "data") {
            Ok(v) => {
                let mut le = u64_to_le_bytes(v);
                bytes.append(&mut le);
                proof {
                    let next = values.push(v);
                    assert(next.drop_last() =~= values);
                    assert forall|rest: Seq<u64>| values + (seq![v] + rest) == #[trigger] (next
                        + rest) by {
                        assert(values + (seq![v] + rest) =~= next + rest);
                    }
                    values = next;
                }
            },
            Err(e) => {
                return Err(e);
            },
        }
        i += 1;
    }
    assert(values + Seq::<u64>::empty() =~= values);
    Ok(bytes)
}

/// Turns a flat payload buffer into its list of decimal limbs.
pub fn decode_limbs(bytes: &[u8]) -> (limbs: Vec<String>)
    ensures
        texts(limbs@) == decode_limbs_spec(bytes@),
{
    let total = bytes.len();
    let count = total / 8;
    let mut limbs: Vec<String> = Vec::new();
    let mut i: usize = 0;
    while i < count
        invariant
            i <= count,
            total == bytes@.len(),
            count == total / 8,
            limbs@.len() == i,
            forall|j: int|
                0 <= j < i ==> (#[trigger] limbs@[j])@ == decimal_digits(
                    bytes_to_limbs(bytes@)[j] as nat,
                ),
        decreases count - i,
    {
        let group = slice_subrange(bytes, 8 * i, 8 * i + 8);
        let v = u64_from_le_bytes(group);
        limbs.push(format_decimal(v));
        i += 1;
    }
    assert(texts(limbs@) =~= limb_texts(bytes_to_limbs(bytes@)));
    limbs
}

} // verus!
