//! Decimal text for unsigned 64-bit integers.
//!
//! Two directions are covered: the grammar that is accepted when text comes in
//! (an optional plus sign, then one or more ASCII digits, with a value that fits
//! in 64 bits), and the canonical rendering that is produced when a number goes
//! out (no sign, no leading zeros).
use vstd::prelude::*;
use vstd::string::*;

verus! {

/// The ten ASCII digits.
pub open spec fn is_digit(c: char) -> bool {
    '0' <= c && c <= '9'
}

/// The number that a digit stands for.
pub open spec fn digit_value(c: char) -> nat {
    (c as u32 - '0' as u32) as nat
}

/// The digit that stands for a number below ten.
pub open spec fn digit_char(d: nat) -> char {
    if d == 0 {
        '0'
    } else if d == 1 {
        '1'
    } else if d == 2 {
        '2'
    } else if d == 3 {
        '3'
    } else if d == 4 {
        '4'
    } else if d == 5 {
        '5'
    } else if d == 6 {
        '6'
    } else if d == 7 {
        '7'
    } else if d == 8 {
        '8'
    } else {
        '9'
    }
}

/// Every character of `s` is a digit.
pub open spec fn all_digits(s: Seq<char>) -> bool {
    forall|i: int| 0 <= i < s.len() ==> is_digit(#[trigger] s[i])
}

/// The value of a run of digits, most significant first. The empty run is worth 0.
pub open spec fn digits_value(s: Seq<char>) -> nat
    decreases s.len(),
{
    if s.len() == 0 {
        0
    } else {
        digits_value(s.drop_last()) * 10 + digit_value(s.last())
    }
}

/// What is left of `s` once an optional leading plus sign is taken off.
pub open spec fn unsigned_body(s: Seq<char>) -> Seq<char> {
    if s.len() > 0 && s[0] == '+' {
        s.subrange(1, s.len() as int)
    } else {
        s
    }
}

/// The number that `s` denotes, if `s` is an optional plus sign followed by one or
/// more digits. Leading zeros are allowed; anything else denotes nothing.
pub open spec fn decimal_value(s: Seq<char>) -> Option<nat> {
    let body = unsigned_body(s);
    if body.len() > 0 && all_digits(body) {
        Some(digits_value(body))
    } else {
        None
    }
}

/// The 64-bit number that `s` denotes: `decimal_value` cut off at `u64::MAX`.
pub open spec fn decimal_u64(s: Seq<char>) -> Option<u64> {
    match decimal_value(s) {
        Some(v) => if v <= u64::MAX {
            Some(v as u64)
        } else {
            None
        },
        None => None,
    }
}

/// The canonical digits of `n`: no sign, no leading zeros, `"0"` for zero.
pub open spec fn decimal_digits(n: nat) -> Seq<char>
    decreases n,
{
    if n < 10 {
        seq![digit_char(n)]
    } else {
        decimal_digits(n / 10).push(digit_char(n % 10))
    }
}

/// A run of digits is worth at least as much as any of its prefixes.
proof fn lemma_prefix_value(s: Seq<char>, k: int)
    requires
        0 <= k <= s.len(),
    ensures
        digits_value(s.subrange(0, k)) <= digits_value(s),
    decreases s.len(),
{
    if k == s.len() {
        assert(s.subrange(0, k) =~= s);
    } else {
        assert(s.drop_last().subrange(0, k) =~= s.subrange(0, k));
        lemma_prefix_value(s.drop_last(), k);
    }
}

/// Canonical digits are a non-empty run of digits that never starts with a sign.
pub proof fn lemma_decimal_digits_shape(n: nat)
    ensures
        decimal_digits(n).len() > 0,
        all_digits(decimal_digits(n)),
        unsigned_body(decimal_digits(n)) == decimal_digits(n),
    decreases n,
{
    if n >= 10 {
        lemma_decimal_digits_shape(n / 10);
    }
}

/// Reading back the canonical digits of a number gives that number.
pub proof fn lemma_decimal_round_trip(n: nat)
    ensures
        decimal_value(decimal_digits(n)) == Some(n),
    decreases n,
{
    lemma_decimal_digits_shape(n);
    lemma_digits_value_of_digits(n);
}

proof fn lemma_digits_value_of_digits(n: nat)
    ensures
        digits_value(decimal_digits(n)) == n,
    decreases n,
{
    if n < 10 {
        let s = decimal_digits(n);
        assert(s.drop_last() =~= Seq::<char>::empty());
        assert(digits_value(s.drop_last()) == 0);
    } else {
        let s = decimal_digits(n);
        lemma_digits_value_of_digits(n / 10);
        assert(s.drop_last() =~= decimal_digits(n / 10));
    }
}

/// Two numbers with the same canonical digits are the same number.
pub proof fn lemma_decimal_digits_injective(a: nat, b: nat)
    requires
        decimal_digits(a) == decimal_digits(b),
    ensures
        a == b,
{
    lemma_decimal_round_trip(a);
    lemma_decimal_round_trip(b);
}

/// Reads a base-10 unsigned 64-bit integer.
///
/// Accepts an optional plus sign followed by one or more ASCII digits whose value
/// fits in 64 bits, and nothing else.
pub fn parse_decimal(text: &str) -> (value: Option<u64>)
    ensures
        value == decimal_u64(text@),
{
    if !text.is_ascii() {
        proof {
            let s = text@;
            let i = choose|i: int| 0 <= i < s.len() && !('\0' <= #[trigger] s[i] <= '\u{7f}');
            if s[0] == '+' {
                assert(unsigned_body(s)[i - 1] == s[i]);
            }
        }
        return None;
    }
    let bytes = text.as_bytes();
    let n = bytes.len();
    proof {
        is_ascii_spec_bytes(text);
    }
    let ghost s = text@;
    assert(n == s.len());
    assert(forall|j: int| 0 <= j < n ==> bytes@[j] == s[j] as u8);
    let mut i: usize = 0;
    if n > 0 && bytes[0] == 43 {
        i = 1;
    }
    let start = i;
    let ghost body = unsigned_body(s);
    assert(body =~= s.subrange(start as int, n as int));
    if i == n {
        return None;
    }
    let mut acc: u64 = 0;
    while i < n
        invariant
            start <= i <= n,
            n == s.len(),
            n == bytes@.len(),
            s == text@,
            body == unsigned_body(s),
            body == s.subrange(start as int, n as int),
            forall|j: int| 0 <= j < n ==> bytes@[j] == s[j] as u8,
            forall|j: int| 0 <= j < n ==> '\0' <= #[trigger] s[j] <= '\u{7f}',
            all_digits(body.subrange(0, i - start)),
            acc == digits_value(body.subrange(0, i - start)),
        decreases n - i,
    {
        let b = bytes[i];
        let ghost c = s[i as int];
        assert(body[i - start] == c);
        if b < 48 || b > 57 {
            assert(!is_digit(c));
            return None;
        }
        assert(is_digit(c));
        let d: u64 = (b - 48) as u64;
        assert(d == digit_value(c));
        let ghost next = body.subrange(0, i - start + 1);
        assert(next.drop_last() =~= body.subrange(0, i - start));
        assert(next.last() == c);
        assert(digits_value(next) == acc * 10 + d);
        if acc > (u64::MAX - d) / 10 {
            proof {
                lemma_prefix_value(body, i - start + 1);
            }
            return None;
        }
        acc = acc * 10 + d;
        i += 1;
    }
    assert(body.subrange(0, i - start) =~= body);
    Some(acc)
}

/// The one-character text for a number below ten.
fn digit_text(d: u64) -> (text: &'static str)
    requires
        d < 10,
    ensures
        text@ == seq![digit_char(d as nat)],
{
    proof {
        reveal_strlit("0");
        reveal_strlit("1");
        reveal_strlit("2");
        reveal_strlit("3");
        reveal_strlit("4");
        reveal_strlit("5");
        reveal_strlit("6");
        reveal_strlit("7");
        reveal_strlit("8");
        reveal_strlit("9");
    }
    let text = if d == 0 {
        "0"
    } else if d == 1 {
        "1"
    } else if d == 2 {
        "2"
    } else if d == 3 {
        "3"
    } else if d == 4 {
        "4"
    } else if d == 5 {
        "5"
    } else if d == 6 {
        "6"
    } else if d == 7 {
        "7"
    } else if d == 8 {
        "8"
    } else {
        "9"
    };
    assert(text@ =~= seq![digit_char(d as nat)]);
    text
}

/// Appends the canonical digits of `n` to `out`.
pub fn push_decimal(out: &mut String, n: u64)
    ensures
        final(out)@ == old(out)@ + decimal_digits(n as nat),
    decreases n,
{
    if n >= 10 {
        push_decimal(out, n / 10);
    }
    out.append(digit_text(n % 10));
    assert(out@ =~= old(out)@ + decimal_digits(n as nat));
}

/// Renders `n` in base 10, without sign or leading zeros.
pub fn format_decimal(n: u64) -> (text: String)
    ensures
        text@ == decimal_digits(n as nat),
{
    let mut text = String::new();
    push_decimal(&mut text, n);
    assert(text@ =~= decimal_digits(n as nat));
    text
}

} // verus!
