//! Session tokens: the letter `s` followed by the canonical decimal digits of the
//! session's number.
use crate::decimal::{
    decimal_digits, format_decimal, is_digit, lemma_decimal_digits_injective,
    lemma_decimal_digits_shape, lemma_decimal_round_trip, parse_decimal, push_decimal,
};
use vstd::prelude::*;
use vstd::string::*;

verus! {

/// The token of the session with the number `id`.
pub open spec fn session_token(id: u64) -> Seq<char> {
    seq!['s'] + decimal_digits(id as nat)
}

/// The number of the session that `token` is the token of, if it is one.
pub open spec fn token_id(token: Seq<char>) -> Option<u64> {
    if exists|id: u64| token == session_token(id) {
        Some(choose|id: u64| token == session_token(id))
    } else {
        None
    }
}

/// Sessions with different numbers have different tokens.
pub proof fn lemma_session_token_injective(a: u64, b: u64)
    requires
        session_token(a) == session_token(b),
    ensures
        a == b,
{
    let da = decimal_digits(a as nat);
    let db = decimal_digits(b as nat);
    assert(session_token(a).subrange(1, session_token(a).len() as int) =~= da);
    assert(session_token(b).subrange(1, session_token(b).len() as int) =~= db);
    lemma_decimal_digits_injective(a as nat, b as nat);
}

/// A token names the session it was made for, and no other.
pub proof fn lemma_token_id(id: u64)
    ensures
        token_id(session_token(id)) == Some(id),
{
    let found = choose|other: u64| session_token(id) == session_token(other);
    lemma_session_token_injective(id, found);
}

/// A token is an `s` followed by one or more digits.
proof fn lemma_session_token_shape(id: u64)
    ensures
        session_token(id).len() >= 2,
        session_token(id)[0] == 's',
        session_token(id).subrange(1, session_token(id).len() as int) == decimal_digits(id as nat),
        forall|i: int|
            0 <= i < session_token(id).len() ==> '\0' <= #[trigger] session_token(id)[i]
                <= '\u{7f}',
{
    let d = decimal_digits(id as nat);
    let t = session_token(id);
    lemma_decimal_digits_shape(id as nat);
    assert(t.subrange(1, t.len() as int) =~= d);
    assert forall|i: int| 0 <= i < t.len() implies '\0' <= #[trigger] t[i] <= '\u{7f}' by {
        if i > 0 {
            assert(t[i] == d[i - 1]);
            assert(is_digit(d[i - 1]));
        }
    }
}

/// Makes the token of the session with the number `id`.
pub fn format_token(id: u64) -> (token: String)
    ensures
        token@ == session_token(id),
{
    proof {
        reveal_strlit("s");
    }
    let mut token = "s".to_owned();
    push_decimal(&mut token, id);
    assert(token@ =~= session_token(id));
    token
}

/// Reads a token back: the session's number, or nothing where the text is the
/// token of no session number.
pub fn parse_token(token: &str) -> (id: Option<u64>)
    ensures
        id == token_id(token@),
{
    let ghost t = token@;
    if !token.is_ascii() {
        proof {
            assert forall|other: u64| t != session_token(other) by {
                lemma_session_token_shape(other);
            }
        }
        return None;
    }
    let bytes = token.as_bytes();
    let n = bytes.len();
    proof {
        is_ascii_spec_bytes(token);
    }
    assert(n == t.len());
    if n < 2 || bytes[0] != 115 {
        proof {
            assert forall|other: u64| t != session_token(other) by {
                lemma_session_token_shape(other);
            }
        }
        return None;
    }
    assert(t[0] == 's');
    let rest = token.substring_ascii(1, n);
    assert(t =~= seq!['s'] + rest@);
    match parse_decimal(rest) {
        Some(id) => {
            let canonical = format_decimal(id);
            let given = rest.to_owned();
            if canonical == given {
                proof {
                    lemma_token_id(id);
                }
                Some(id)
            } else {
                proof {
                    assert forall|other: u64| t != session_token(other) by {
                        if t == session_token(other) {
                            lemma_session_token_shape(other);
                            lemma_decimal_round_trip(other as nat);
                        }
                    }
                }
                None
            }
        },
        None => {
            proof {
                assert forall|other: u64| t != session_token(other) by {
                    if t == session_token(other) {
                        lemma_session_token_shape(other);
                        lemma_decimal_round_trip(other as nat);
                    }
                }
            }
            None
        },
    }
}

} // verus!
