//! How responses are cut into head and body.

use crate::admin::{json_bytes, json_reason};
use crate::code_export::{
    after_line, announced, blank_line, code_answer, declared_length, first_line, head_end,
    head_ends_at_the_first_blank_line, line_length, plain_response, reason, response,
    response_head, without_return,
};
use crate::json::{json_text, JsonView};
use crate::text::{
    all_digits, ascii_lower, decimal, digit_char, digits_value, is_digit, is_white,
    lemma_until_char_is, same_ignoring_case, starts_with, trim_start, trimmed, without_plus,
};
use vstd::prelude::*;
use vstd::utf8::{
    decode_utf8, decode_utf8_encode_utf8, encode_scalar, encode_utf8, encode_utf8_decode_utf8,
    encode_utf8_valid_utf8, valid_utf8,
};

verus! {

proof fn lemma_encode_concat(a: Seq<char>, b: Seq<char>)
    ensures
        encode_utf8(a + b) == encode_utf8(a) + encode_utf8(b),
    decreases a.len(),
{
    if a.len() == 0 {
        assert(a + b =~= b);
        assert(encode_utf8(a) + encode_utf8(b) =~= encode_utf8(b));
    } else {
        assert((a + b).drop_first() =~= a.drop_first() + b);
        lemma_encode_concat(a.drop_first(), b);
        assert(encode_utf8(a + b) =~= encode_utf8(a) + encode_utf8(b));
    }
}

pub open spec fn is_ascii(s: Seq<char>) -> bool {
    forall|i: int| 0 <= i < s.len() ==> (#[trigger] s[i] as u32) < 128
}

proof fn lemma_encode_ascii(s: Seq<char>)
    requires
        is_ascii(s),
    ensures
        encode_utf8(s).len() == s.len(),
        forall|i: int| 0 <= i < s.len() ==> #[trigger] encode_utf8(s)[i] == s[i] as u8,
    decreases s.len(),
{
    if s.len() > 0 {
        let rest = s.drop_first();
        assert forall|i: int| 0 <= i < rest.len() implies (#[trigger] rest[i] as u32) < 128 by {
            assert(rest[i] == s[i + 1]);
        }
        lemma_encode_ascii(rest);
        lemma_one_byte(s[0]);
        assert forall|i: int| 0 <= i < s.len() implies #[trigger] encode_utf8(s)[i] == s[i] as u8 by {
            if i > 0 {
                assert(encode_utf8(s)[i] == encode_utf8(rest)[i - 1]);
                assert(rest[i - 1] == s[i]);
            }
        }
    }
}

proof fn lemma_one_byte(c: char)
    requires
        (c as u32) < 128,
    ensures
        encode_scalar(c as u32) == seq![c as u8],
{
    let u = c as u32;
    assert(u < 128 ==> (u & 0x7f) as u8 == u as u8) by (bit_vector);
    assert(encode_scalar(u) =~= seq![c as u8]);
}

/// Characters of ASCII with the same byte are the same.
proof fn lemma_same_byte(a: char, b: char)
    requires
        (a as u32) < 128,
        (b as u32) < 128,
        a as u8 == b as u8,
    ensures
        a == b,
{
    assert(a as u8 == a as u32 && b as u8 == b as u32);
}

/// A header line: some characters of ASCII, none of which ends a line.
pub open spec fn header_line(l: Seq<char>) -> bool {
    &&& l.len() > 0
    &&& forall|i: int|
        0 <= i < l.len() ==> (#[trigger] l[i] as u32) < 128 && l[i] != '\r' && l[i] != '\n'
}

pub open spec fn line_end() -> Seq<char> {
    seq!['\r', '\n']
}

/// Header lines, and the blank line behind them.
pub open spec fn head_text(lines: Seq<Seq<char>>) -> Seq<char>
    decreases lines.len(),
{
    if lines.len() == 0 {
        line_end()
    } else {
        lines[0] + line_end() + head_text(lines.skip(1))
    }
}

/// A blank line ends at `p`.
spec fn blank_at(t: Seq<char>, p: int) -> bool {
    4 <= p <= t.len() && t[p - 4] == '\r' && t[p - 3] == '\n' && t[p - 2] == '\r' && t[p - 1]
        == '\n'
}

/// A head holds one blank line, at its end.
proof fn lemma_one_blank(lines: Seq<Seq<char>>)
    requires
        lines.len() > 0,
        forall|i: int| 0 <= i < lines.len() ==> header_line(#[trigger] lines[i]),
    ensures
        is_ascii(head_text(lines)),
        head_text(lines)[0] != '\r',
        forall|p: int| #[trigger] blank_at(head_text(lines), p) <==> p == head_text(lines).len(),
    decreases lines.len(),
{
    let l = lines[0];
    let rest = head_text(lines.skip(1));
    let t = head_text(lines);
    let n = l.len() as int;
    assert(header_line(l));
    assert(t.len() == n + 2 + rest.len());
    assert(forall|i: int| 0 <= i < n ==> t[i] == l[i]);
    assert(t[n] == '\r' && t[n + 1] == '\n');
    assert(forall|i: int| 0 <= i < rest.len() ==> t[n + 2 + i] == rest[i]);
    if lines.len() == 1 {
        assert(lines.skip(1).len() == 0);
        assert(rest == line_end());
        assert forall|p: int| #[trigger] blank_at(t, p) <==> p == t.len() by {
            if blank_at(t, p) && p < t.len() {
                assert(t[p - 4] == '\r');
                assert(p - 4 >= n);
            }
        }
    } else {
        assert forall|i: int| 0 <= i < lines.skip(1).len() implies header_line(
            #[trigger] lines.skip(1)[i],
        ) by {
            assert(lines.skip(1)[i] == lines[i + 1]);
        }
        lemma_one_blank(lines.skip(1));
        assert(blank_at(rest, rest.len() as int));
        assert forall|p: int| #[trigger] blank_at(t, p) <==> p == t.len() by {
            if blank_at(t, p) {
                assert(t[p - 4] == '\r');
                assert(p - 4 >= n);
                if p - 4 == n {
                    assert(t[n + 2] == rest[0]);
                } else if p - 4 == n + 1 {
                    assert(t[n + 1] == '\n');
                } else {
                    let q = p - n - 2;
                    assert(rest[q - 4] == t[n + 2 + (q - 4)]);
                    assert(rest[q - 3] == t[n + 2 + (q - 3)]);
                    assert(rest[q - 2] == t[n + 2 + (q - 2)]);
                    assert(rest[q - 1] == t[n + 2 + (q - 1)]);
                    assert(blank_at(rest, q));
                }
            }
            if p == t.len() {
                let q = rest.len() as int;
                assert(rest[q - 4] == t[n + 2 + (q - 4)]);
                assert(rest[q - 3] == t[n + 2 + (q - 3)]);
                assert(rest[q - 2] == t[n + 2 + (q - 2)]);
                assert(rest[q - 1] == t[n + 2 + (q - 1)]);
            }
        }
    }
    assert forall|i: int| 0 <= i < t.len() implies (#[trigger] t[i] as u32) < 128 by {
        if i >= n + 2 {
            assert(t[i] == rest[i - n - 2]);
        }
    }
    assert(t[0] == l[0]);
}

/// Bytes that begin with a head end it there.
proof fn lemma_head_end(lines: Seq<Seq<char>>, body: Seq<u8>)
    requires
        lines.len() > 0,
        forall|i: int| 0 <= i < lines.len() ==> header_line(#[trigger] lines[i]),
    ensures
        head_end(encode_utf8(head_text(lines)) + body) == Some(
            encode_utf8(head_text(lines)).len() as int,
        ),
{
    let t = head_text(lines);
    let bytes = encode_utf8(t);
    let all = bytes + body;
    lemma_one_blank(lines);
    lemma_encode_ascii(t);
    head_ends_at_the_first_blank_line(all);
    let n = t.len() as int;
    assert(blank_at(t, n));
    assert(bytes[n - 4] == t[n - 4] as u8 && bytes[n - 3] == t[n - 3] as u8 && bytes[n - 2] == t[n
        - 2] as u8 && bytes[n - 1] == t[n - 1] as u8);
    assert(blank_line(all, n));
    assert forall|q: int| q < n implies !#[trigger] blank_line(all, q) by {
        if blank_line(all, q) {
            assert(bytes[q - 4] == t[q - 4] as u8 && bytes[q - 3] == t[q - 3] as u8 && bytes[q - 2]
                == t[q - 2] as u8 && bytes[q - 1] == t[q - 1] as u8);
            assert((t[q - 4] as u32) < 128 && (t[q - 3] as u32) < 128 && (t[q - 2] as u32) < 128
                && (t[q - 1] as u32) < 128);
            lemma_same_byte(t[q - 4], '\r');
            lemma_same_byte(t[q - 3], '\n');
            lemma_same_byte(t[q - 2], '\r');
            lemma_same_byte(t[q - 1], '\n');
            assert(blank_at(t, q));
        }
    }
}

/// The first of some lines, and what follows it.
proof fn lemma_first_line(l: Seq<char>, x: Seq<char>)
    requires
        header_line(l),
    ensures
        first_line(l + line_end() + x) == l,
        after_line(l + line_end() + x) == x,
{
    let s = l + line_end() + x;
    let p = l.len() as int + 1;
    assert forall|j: int| 0 <= j < p implies s[j] != '\n' by {
        if j < l.len() {
            assert(s[j] == l[j]);
        }
    }
    lemma_until_char_is(s, '\n', p);
    assert(s.take(p).last() == '\r');
    assert(s.take(p).drop_last() =~= l);
    assert(without_return(s.take(p)) == l);
    assert(s.skip(p + 1) =~= x);
}

proof fn lemma_decimal(n: nat)
    ensures
        decimal(n).len() > 0,
        all_digits(decimal(n)),
        digits_value(decimal(n)) == n,
    decreases n,
{
    let d = digit_char(n % 10);
    assert(is_digit(d) && (d as u32 - '0' as u32) as nat == n % 10);
    if n < 10 {
        let s = seq![d];
        assert(decimal(n) =~= s);
        assert(s.drop_last() =~= Seq::<char>::empty());
        reveal_with_fuel(digits_value, 2);
    } else {
        lemma_decimal(n / 10);
        let before = decimal(n / 10);
        assert(decimal(n).drop_last() =~= before);
        assert forall|i: int| 0 <= i < decimal(n).len() implies is_digit(
            #[trigger] decimal(n)[i],
        ) by {
            if i < before.len() {
                assert(decimal(n)[i] == before[i]);
            }
        }
    }
}

proof fn lemma_digits_line(n: nat)
    ensures
        header_line(decimal(n)),
{
    lemma_decimal(n);
    assert forall|i: int| 0 <= i < decimal(n).len() implies (#[trigger] decimal(n)[i] as u32) < 128
        && decimal(n)[i] != '\r' && decimal(n)[i] != '\n' by {
        assert(is_digit(decimal(n)[i]));
    }
}

proof fn lemma_joined(a: Seq<char>, b: Seq<char>)
    requires
        header_line(a),
        header_line(b),
    ensures
        header_line(a + b),
{
    assert forall|i: int| 0 <= i < (a + b).len() implies (#[trigger] (a + b)[i] as u32) < 128 && (a
        + b)[i] != '\r' && (a + b)[i] != '\n' by {
        if i < a.len() {
            assert((a + b)[i] == a[i]);
        } else {
            assert((a + b)[i] == b[i - a.len()]);
        }
    }
}

/// What is neither preceded nor followed by white space is not trimmed.
proof fn lemma_trimmed(s: Seq<char>)
    requires
        s.len() > 0,
        !is_white(s[0]),
        !is_white(s.last()),
    ensures
        trimmed(s) == s,
{
}

/// The line that announces a length does.
proof fn lemma_length_line(n: nat)
    requires
        n <= usize::MAX,
    ensures
        line_length("Content-Length: "@ + decimal(n)) == Some(n),
{
    reveal_strlit("Content-Length: ");
    reveal_strlit("content-length");
    let digits = decimal(n);
    let line = "Content-Length: "@ + digits;
    lemma_decimal(n);
    lemma_until_char_is(line, ':', 14);
    let key = line.take(14);
    assert(key[0] == 'C' && key[13] == 'h');
    assert(key.last() == 'h');
    lemma_trimmed(key);
    assert(same_ignoring_case(key, "content-length"@)) by {
        let low = "content-length"@;
        assert(key.len() == 14 && low.len() == 14);
        assert forall|i: int| #![trigger key[i]] 0 <= i < 14 implies ascii_lower(key[i])
            == ascii_lower(low[i]) by {
            assert(key[i] == line[i] && line[i] == "Content-Length: "@[i]);
        }
    }
    let value = line.skip(15);
    assert(value[0] == ' ');
    assert(value.skip(1) =~= digits);
    assert(is_digit(digits[0]) && is_digit(digits[digits.len() - 1]));
    assert(trim_start(digits) == digits);
    assert(trim_start(value) == trim_start(value.skip(1)));
    assert(trimmed(value) == digits);
    assert(without_plus(digits) == digits);
}

/// The line that names the type announces no length.
proof fn lemma_type_line(content_type: Seq<char>)
    ensures
        line_length("Content-Type: "@ + content_type) is None,
{
    reveal_strlit("Content-Type: ");
    reveal_strlit("content-length");
    let line = "Content-Type: "@ + content_type;
    lemma_until_char_is(line, ':', 12);
    let key = line.take(12);
    assert(key[0] == 'C' && key.last() == 'e');
    lemma_trimmed(key);
}

spec fn status_line(status: u16, reason: Seq<char>) -> Seq<char> {
    "HTTP/1.1 "@ + decimal(status as nat) + " "@ + reason
}

/// The header lines of a response.
spec fn response_lines(
    status: u16,
    reason: Seq<char>,
    content_type: Seq<char>,
    n: nat,
    extra: Seq<Seq<char>>,
) -> Seq<Seq<char>> {
    seq![
        status_line(status, reason),
        "Content-Type: "@ + content_type,
        "Content-Length: "@ + decimal(n),
    ] + extra + seq!["Connection: close"@]
}

/// Further header lines as text.
spec fn extra_text(extra: Seq<Seq<char>>) -> Seq<char> {
    if extra.len() == 0 {
        Seq::empty()
    } else {
        extra[0] + line_end()
    }
}

/// The head of a response, line by line.
proof fn lemma_response_head(
    status: u16,
    reason: Seq<char>,
    content_type: Seq<char>,
    n: nat,
    extra: Seq<Seq<char>>,
)
    requires
        extra.len() <= 1,
    ensures
        response_head(status, reason, content_type, n, extra_text(extra)) == head_text(
            response_lines(status, reason, content_type, n, extra),
        ),
        head_text(response_lines(status, reason, content_type, n, extra)) == status_line(
            status,
            reason,
        ) + line_end() + (("Content-Type: "@ + content_type) + line_end() + ((
        "Content-Length: "@ + decimal(n)) + line_end() + head_text(
            extra + seq!["Connection: close"@],
        ))),
{
    let close = "Connection: close"@;
    let lines = response_lines(status, reason, content_type, n, extra);
    let tail = extra + seq![close];
    assert(lines.skip(1).skip(1).skip(1) =~= tail);
    assert(lines[0] == status_line(status, reason));
    assert(lines.skip(1)[0] == "Content-Type: "@ + content_type);
    assert(lines.skip(1).skip(1)[0] == "Content-Length: "@ + decimal(n));
    assert(head_text(lines.skip(1).skip(1)) == lines.skip(1).skip(1)[0] + line_end() + head_text(
        tail,
    ));
    assert(head_text(lines.skip(1)) == lines.skip(1)[0] + line_end() + head_text(
        lines.skip(1).skip(1),
    ));
    assert(head_text(lines) == lines[0] + line_end() + head_text(lines.skip(1)));
    let last = seq![close];
    assert(last.skip(1) =~= Seq::<Seq<char>>::empty());
    assert(head_text(last.skip(1)) == line_end());
    assert(head_text(last) == close + line_end() + line_end());
    if extra.len() == 0 {
        assert(tail =~= last);
        assert(head_text(tail) =~= extra_text(extra) + close + line_end() + line_end());
    } else {
        assert(tail.skip(1) =~= last);
        assert(tail[0] == extra[0]);
        assert(head_text(tail) =~= extra_text(extra) + close + line_end() + line_end());
    }
    assert("Connection: close\r\n\r\n"@ =~= close + line_end() + line_end()) by {
        reveal_strlit("Connection: close\r\n\r\n");
        reveal_strlit("Connection: close");
    }
    assert("\r\nContent-Type: "@ =~= line_end() + "Content-Type: "@) by {
        reveal_strlit("\r\nContent-Type: ");
        reveal_strlit("Content-Type: ");
    }
    assert("\r\nContent-Length: "@ =~= line_end() + "Content-Length: "@) by {
        reveal_strlit("\r\nContent-Length: ");
        reveal_strlit("Content-Length: ");
    }
    assert("\r\n"@ =~= line_end()) by {
        reveal_strlit("\r\n");
    }
    assert(response_head(status, reason, content_type, n, extra_text(extra)) =~= head_text(lines));
}

/// Any text with a response's head at its start announces the length.
proof fn lemma_response_length(
    status: u16,
    reason: Seq<char>,
    content_type: Seq<char>,
    n: nat,
    extra: Seq<Seq<char>>,
    rest: Seq<char>,
)
    requires
        header_line(reason),
        header_line(content_type),
        n <= usize::MAX,
        extra.len() <= 1,
    ensures
        declared_length(
            response_head(status, reason, content_type, n, extra_text(extra)) + rest,
        ) == n,
{
    lemma_response_head(status, reason, content_type, n, extra);
    lemma_lines(status, reason, content_type, n);
    let l1 = status_line(status, reason);
    let l2 = "Content-Type: "@ + content_type;
    let l3 = "Content-Length: "@ + decimal(n);
    let x3 = head_text(extra + seq!["Connection: close"@]) + rest;
    let x2 = l3 + line_end() + x3;
    let x1 = l2 + line_end() + x2;
    let text = response_head(status, reason, content_type, n, extra_text(extra)) + rest;
    assert(text =~= l1 + line_end() + x1);
    lemma_first_line(l1, x1);
    lemma_first_line(l2, x2);
    lemma_first_line(l3, x3);
    lemma_type_line(content_type);
    lemma_length_line(n);
    assert(after_line(text) == x1);
    assert(announced(x2) == n);
    assert(announced(x1) == announced(x2));
}

/// The first lines of a response are header lines.
proof fn lemma_lines(status: u16, reason: Seq<char>, content_type: Seq<char>, n: nat)
    requires
        header_line(reason),
        header_line(content_type),
    ensures
        header_line(status_line(status, reason)),
        header_line("Content-Type: "@ + content_type),
        header_line("Content-Length: "@ + decimal(n)),
        header_line("Connection: close"@),
{
    reveal_strlit("HTTP/1.1 ");
    reveal_strlit(" ");
    reveal_strlit("Content-Type: ");
    reveal_strlit("Content-Length: ");
    reveal_strlit("Connection: close");
    lemma_digits_line(status as nat);
    lemma_digits_line(n);
    lemma_joined("HTTP/1.1 "@, decimal(status as nat));
    lemma_joined("HTTP/1.1 "@ + decimal(status as nat), " "@);
    lemma_joined("HTTP/1.1 "@ + decimal(status as nat) + " "@, reason);
    lemma_joined("Content-Type: "@, content_type);
    lemma_joined("Content-Length: "@, decimal(n));
}

/// The bytes are cut in two by their first blank line: what precedes it is
/// text, what follows it is the body, and any text that begins with that of
/// the head announces the length of the body.
pub open spec fn frames(r: Seq<u8>, body: Seq<u8>, text: Seq<char>) -> bool {
    &&& head_end(r) matches Some(p) && 0 <= p <= r.len() && r.skip(p) == body && valid_utf8(
        r.take(p),
    ) && (starts_with(text, decode_utf8(r.take(p))) ==> declared_length(text) == body.len())
}

/// A response frames its body.
proof fn lemma_response_frames(
    status: u16,
    reason: Seq<char>,
    content_type: Seq<char>,
    extra: Seq<Seq<char>>,
    body: Seq<u8>,
    text: Seq<char>,
)
    requires
        header_line(reason),
        header_line(content_type),
        extra.len() <= 1,
        extra.len() == 1 ==> header_line(extra[0]),
        body.len() <= usize::MAX,
    ensures
        ({
            let r = response(status, reason, content_type, extra_text(extra), body);
            &&& frames(r, body, text)
            &&& valid_utf8(body) ==> declared_length(decode_utf8(r)) == body.len()
        }),
{
    let n = body.len();
    let head = response_head(status, reason, content_type, n, extra_text(extra));
    let bytes = encode_utf8(head);
    let r = response(status, reason, content_type, extra_text(extra), body);
    let lines = response_lines(status, reason, content_type, n, extra);
    lemma_response_head(status, reason, content_type, n, extra);
    lemma_lines(status, reason, content_type, n);
    assert forall|i: int| 0 <= i < lines.len() implies header_line(#[trigger] lines[i]) by {
        if extra.len() == 1 && i == 3 {
            assert(lines[3] == extra[0]);
        }
    }
    lemma_head_end(lines, body);
    assert(r.skip(bytes.len() as int) =~= body);
    assert(r.take(bytes.len() as int) =~= bytes);
    encode_utf8_valid_utf8(head);
    encode_utf8_decode_utf8(head);
    if starts_with(text, head) {
        let rest = text.skip(head.len() as int);
        assert(text =~= head + rest);
        lemma_response_length(status, reason, content_type, n, extra, rest);
    }
    if valid_utf8(body) {
        let rest = decode_utf8(body);
        decode_utf8_encode_utf8(body);
        lemma_encode_concat(head, rest);
        encode_utf8_decode_utf8(head + rest);
        lemma_response_length(status, reason, content_type, n, extra, rest);
    }
}

/// A plain answer frames its message, whatever that holds: the head ends
/// where the message begins, and the announced length is the number of its
/// bytes, both in the text of the head and in that of the whole answer.
pub proof fn plain_answer_frames_its_message(status: u16, msg: Seq<char>, text: Seq<char>)
    requires
        encode_utf8(msg).len() <= usize::MAX,
    ensures
        ({
            let r = plain_response(status, msg);
            &&& frames(r, encode_utf8(msg), text)
            &&& declared_length(decode_utf8(r)) == encode_utf8(msg).len()
        }),
{
    reveal_strlit("Bad Request");
    reveal_strlit("Not Found");
    reveal_strlit("Method Not Allowed");
    reveal_strlit("Conflict");
    reveal_strlit("OK");
    reveal_strlit("text/plain; charset=utf-8");
    encode_utf8_valid_utf8(msg);
    lemma_response_frames(
        status,
        reason(status),
        "text/plain; charset=utf-8"@,
        Seq::empty(),
        encode_utf8(msg),
        text,
    );
}

/// A JSON answer frames its body in the same way.
pub proof fn json_answer_frames_its_value(status: u16, value: JsonView, text: Seq<char>)
    ensures
        json_text(value).len() <= usize::MAX ==> {
            let r = json_bytes(status, value);
            &&& frames(r, json_text(value), text)
            &&& valid_utf8(json_text(value)) ==> declared_length(decode_utf8(r)) == json_text(
                value,
            ).len()
        },
{
    reveal_strlit("OK");
    reveal_strlit("Created");
    reveal_strlit("Bad Request");
    reveal_strlit("Not Found");
    reveal_strlit("Conflict");
    reveal_strlit("application/json");
    if json_text(value).len() <= usize::MAX {
        lemma_response_frames(
            status,
            json_reason(status),
            "application/json"@,
            Seq::empty(),
            json_text(value),
            text,
        );
    }
}

/// The answer to a lookup that found a blob frames the blob, bytes of any
/// kind.
pub proof fn code_answer_frames_its_blob(blob: Seq<u8>, text: Seq<char>)
    requires
        blob.len() <= usize::MAX,
    ensures
        frames(code_answer(Some(blob)), blob, text),
{
    let cache = "Cache-Control: public, max-age=31536000, immutable\r\n"@;
    reveal_strlit("Cache-Control: public, max-age=31536000, immutable\r\n");
    reveal_strlit("OK");
    reveal_strlit("application/octet-stream");
    let line = cache.take(cache.len() - 2);
    assert(line + line_end() =~= cache);
    assert(header_line(line));
    lemma_response_frames(
        200,
        "OK"@,
        "application/octet-stream"@,
        seq![line],
        blob,
        text,
    );
}

}
