//! What a handshake's query asks for, said of its pairs.

use crate::gateway::{codec_of, device_of, param};
use crate::protocol::Codec;
use crate::text::{
    all_digits, digits_value, is_digit, lemma_until_char, lemma_until_char_is, unsigned_value,
    until_char, without_plus,
};
use vstd::prelude::*;

verus! {

/// The text without any of a character.
pub open spec fn free_of(s: Seq<char>, c: char) -> bool {
    forall|i: int| 0 <= i < s.len() ==> s[i] != c
}

/// Two queries as one.
pub open spec fn joined(a: Seq<char>, b: Seq<char>) -> Seq<char> {
    a + seq!['&'] + b
}

/// A pair of a name and a value.
pub open spec fn pair(name: Seq<char>, value: Seq<char>) -> Seq<char> {
    name + seq!['='] + value
}

proof fn lemma_joined(a: Seq<char>, b: Seq<char>, key: Seq<char>)
    requires
        free_of(a, '&'),
    ensures
        param(joined(a, b), key) == if param(a, key) is Some {
            param(a, key)
        } else {
            param(b, key)
        },
{
    let q = joined(a, b);
    let n = a.len() as int;
    assert(forall|i: int| 0 <= i < n ==> q[i] == a[i]);
    lemma_until_char_is(q, '&', n);
    lemma_until_char_is(a, '&', n);
    assert(q.take(n) =~= a);
    assert(a.take(n) =~= a);
    assert(q.skip(n + 1) =~= b);
}

/// A query is read from its front: what a later part says of a key counts
/// only where no earlier part says anything of it.
pub proof fn earlier_pairs_win(a: Seq<char>, b: Seq<char>, key: Seq<char>)
    ensures
        param(joined(a, b), key) == if param(a, key) is Some {
            param(a, key)
        } else {
            param(b, key)
        },
    decreases a.len(),
{
    lemma_until_char(a, '&');
    let n = until_char(a, '&');
    if n == a.len() {
        lemma_joined(a, b, key);
    } else {
        let first = a.take(n);
        let rest = a.skip(n + 1);
        assert(forall|i: int| 0 <= i < n ==> first[i] == a[i]);
        assert(joined(first, rest) =~= a);
        assert(joined(first, joined(rest, b)) =~= joined(a, b));
        lemma_joined(first, rest, key);
        lemma_joined(first, joined(rest, b), key);
        earlier_pairs_win(rest, b, key);
    }
}

/// A pair is cut at its first `=`: what precedes it is the name, what follows
/// is the value, and the pair speaks of no other name. Without a `=` it
/// speaks of none.
pub proof fn pairs_are_cut_at_the_first_equals(name: Seq<char>, value: Seq<char>, key: Seq<char>)
    requires
        free_of(name, '&'),
        free_of(name, '='),
        free_of(value, '&'),
    ensures
        param(pair(name, value), key) == if name == key {
            Some(value)
        } else {
            None
        },
        param(name, key) is None,
{
    let q = pair(name, value);
    let n = name.len() as int;
    assert(forall|i: int| 0 <= i < n ==> q[i] == name[i]);
    assert(forall|i: int| n < i < q.len() ==> q[i] == value[i - n - 1]);
    lemma_until_char_is(q, '&', q.len() as int);
    assert(q.take(q.len() as int) =~= q);
    lemma_until_char_is(q, '=', n);
    assert(q.take(n) =~= name);
    assert(q.skip(n + 1) =~= value);
    lemma_until_char_is(name, '&', n);
    lemma_until_char_is(name, '=', n);
    assert(name.take(n) =~= name);
}

/// The codec is JSON exactly where the first pair named `protocol` has the
/// value `json`. Pairs with other names, before or after it, make no
/// difference, nor do pairs without a `=`.
pub proof fn protocol_pair_selects_the_codec(
    before: Seq<char>,
    name: Seq<char>,
    value: Seq<char>,
    after: Seq<char>,
)
    requires
        free_of(name, '&'),
        free_of(name, '='),
        free_of(value, '&'),
    ensures
        codec_of(Seq::empty()) == Codec::Cbor,
        name == "protocol"@ ==> {
            &&& codec_of(pair(name, value)) == Codec::Json <==> value == "json"@
            &&& codec_of(joined(pair(name, value), after)) == Codec::Json <==> value == "json"@
            &&& param(before, "protocol"@) is None ==> (codec_of(
                joined(before, joined(pair(name, value), after)),
            ) == Codec::Json <==> value == "json"@)
        },
        name != "protocol"@ ==> {
            &&& codec_of(pair(name, value)) == Codec::Cbor
            &&& codec_of(joined(pair(name, value), after)) == codec_of(after)
            &&& codec_of(joined(before, pair(name, value))) == codec_of(before)
            &&& codec_of(joined(before, joined(pair(name, value), after))) == codec_of(
                joined(before, after),
            )
        },
        codec_of(name) == Codec::Cbor,
        codec_of(joined(name, after)) == codec_of(after),
        codec_of(joined(before, joined(name, after))) == codec_of(joined(before, after)),
{
    let key = "protocol"@;
    let p = pair(name, value);
    pairs_are_cut_at_the_first_equals(name, value, key);
    pairs_are_cut_at_the_first_equals(Seq::empty(), Seq::empty(), key);
    earlier_pairs_win(p, after, key);
    earlier_pairs_win(before, p, key);
    earlier_pairs_win(before, joined(p, after), key);
    earlier_pairs_win(before, after, key);
    earlier_pairs_win(name, after, key);
    earlier_pairs_win(before, joined(name, after), key);
}

/// The text is a number: decimal digits, with or without a `+` before them.
pub open spec fn is_number(s: Seq<char>, n: nat) -> bool {
    ||| s.len() > 0 && all_digits(s) && digits_value(s) == n
    ||| s.len() > 1 && s[0] == '+' && all_digits(s.skip(1)) && digits_value(s.skip(1)) == n
}

/// A text is read as a number exactly where it is one, and one that is not
/// too large.
pub proof fn numbers_are_read(s: Seq<char>, max: nat, n: nat)
    ensures
        unsigned_value(s, max) == Some(n) <==> is_number(s, n) && n <= max,
        unsigned_value(s, max) matches Some(m) ==> is_number(s, m) && m <= max,
{
    if s.len() > 0 && all_digits(s) {
        assert(is_digit(s[0]));
        assert(without_plus(s) == s);
    }
}

/// Digits are decimal, the last one counting least.
pub proof fn digits_are_decimal(s: Seq<char>, c: char)
    ensures
        digits_value(Seq::empty()) == 0,
        is_digit(c) ==> digits_value(s.push(c)) == digits_value(s) * 10 + (c as u32 - 48),
        is_digit(c) <==> 48 <= c as u32 <= 57,
{
    assert(s.push(c).drop_last() =~= s);
}

/// The device is the number in the first pair named `device`, and nothing
/// where that holds no number. Pairs with other names make no difference.
pub proof fn device_pair_names_the_device(
    before: Seq<char>,
    name: Seq<char>,
    value: Seq<char>,
    after: Seq<char>,
)
    requires
        free_of(name, '&'),
        free_of(name, '='),
        free_of(value, '&'),
    ensures
        device_of(Seq::empty()) is None,
        forall|n: nat|
            name == "device"@ && #[trigger] is_number(value, n) && n <= u64::MAX ==> {
                &&& device_of(pair(name, value)) == Some(n as u64)
                &&& device_of(joined(pair(name, value), after)) == Some(n as u64)
                &&& param(before, "device"@) is None ==> device_of(
                    joined(before, joined(pair(name, value), after)),
                ) == Some(n as u64)
            },
        name == "device"@ && (forall|n: nat| #[trigger] is_number(value, n) ==> n > u64::MAX) ==> {
            &&& device_of(pair(name, value)) is None
            &&& device_of(joined(pair(name, value), after)) is None
            &&& param(before, "device"@) is None ==> device_of(
                joined(before, joined(pair(name, value), after)),
            ) is None
        },
        name != "device"@ ==> {
            &&& device_of(pair(name, value)) is None
            &&& device_of(joined(pair(name, value), after)) == device_of(after)
            &&& device_of(joined(before, joined(pair(name, value), after))) == device_of(
                joined(before, after),
            )
        },
{
    let key = "device"@;
    let p = pair(name, value);
    pairs_are_cut_at_the_first_equals(name, value, key);
    pairs_are_cut_at_the_first_equals(Seq::empty(), Seq::empty(), key);
    earlier_pairs_win(p, after, key);
    earlier_pairs_win(before, joined(p, after), key);
    earlier_pairs_win(before, after, key);
    assert forall|n: nat| #[trigger] is_number(value, n) && n <= u64::MAX implies unsigned_value(
        value,
        u64::MAX as nat,
    ) == Some(n) by {
        numbers_are_read(value, u64::MAX as nat, n);
    }
    if let Some(m) = unsigned_value(value, u64::MAX as nat) {
        numbers_are_read(value, u64::MAX as nat, m);
        assert(is_number(value, m));
    }
}

}
