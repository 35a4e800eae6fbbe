//! How a request is read, said of its bytes, its words and its header lines.

use crate::code_export::{
    after_line, after_word, announced, blank_line, cut, declared_length, fed, first_line,
    first_word, head_end, head_end_stays, head_ends_at_the_first_blank_line, line_length, lossy,
    method_of, path_of, without_return, HeadView, ReadState, StepView,
};
use crate::handshake_laws::{free_of, is_number, numbers_are_read};
use crate::text::{
    ascii_lower, is_white, lemma_until_char_is, same_ignoring_case, trim_end, trim_start, trimmed,
    unsigned_value, until_white,
};
use vstd::prelude::*;

verus! {

/// White space, among the characters of ASCII, is the space and the control
/// characters from the tab to the carriage return; beyond ASCII it is what
/// Unicode says.
pub proof fn white_space_is_known(c: char)
    ensures
        (c as u32) < 128 ==> (is_white(c) <==> c == ' ' || 9 <= c as u32 <= 13),
        (c as u32) >= 128 ==> (is_white(c) <==> c == '\u{85}' || c == '\u{a0}' || c == '\u{1680}'
            || '\u{2000}' <= c <= '\u{200a}' || c == '\u{2028}' || c == '\u{2029}' || c
            == '\u{202f}' || c == '\u{205f}' || c == '\u{3000}'),
{
}

/// White space within a line.
pub open spec fn blank(s: Seq<char>) -> bool {
    forall|i: int| 0 <= i < s.len() ==> is_white(#[trigger] s[i]) && s[i] != '\n'
}

/// A word: some characters, none of them white space.
pub open spec fn is_word(s: Seq<char>) -> bool {
    s.len() > 0 && forall|i: int| 0 <= i < s.len() ==> !is_white(#[trigger] s[i])
}

proof fn lemma_trim_start(w: Seq<char>, s: Seq<char>)
    requires
        blank(w),
        s.len() > 0 ==> !is_white(s[0]),
    ensures
        trim_start(w + s) == s,
    decreases w.len(),
{
    if w.len() == 0 {
        assert(w + s =~= s);
    } else {
        let rest = w.skip(1);
        assert forall|i: int| 0 <= i < rest.len() implies is_white(#[trigger] rest[i]) && rest[i]
            != '\n' by {
            assert(rest[i] == w[i + 1]);
        }
        lemma_trim_start(rest, s);
        assert((w + s)[0] == w[0]);
        assert((w + s).skip(1) =~= rest + s);
    }
}

proof fn lemma_trim_end(s: Seq<char>, w: Seq<char>)
    requires
        blank(w),
        s.len() > 0 ==> !is_white(s.last()),
    ensures
        trim_end(s + w) == s,
    decreases w.len(),
{
    if w.len() == 0 {
        assert(s + w =~= s);
    } else {
        let rest = w.drop_last();
        assert(blank(rest));
        lemma_trim_end(s, rest);
        assert((s + w).last() == w.last());
        assert((s + w).drop_last() =~= s + rest);
    }
}

proof fn lemma_until_white(m: Seq<char>, t: Seq<char>)
    requires
        forall|i: int| 0 <= i < m.len() ==> !is_white(#[trigger] m[i]),
        t.len() > 0 ==> is_white(t[0]),
    ensures
        until_white(m + t) == m.len(),
    decreases m.len(),
{
    if m.len() == 0 {
        assert(m + t =~= t);
    } else {
        let rest = m.skip(1);
        assert forall|i: int| 0 <= i < rest.len() implies !is_white(#[trigger] rest[i]) by {
            assert(rest[i] == m[i + 1]);
        }
        lemma_until_white(rest, t);
        assert((m + t)[0] == m[0]);
        assert((m + t).skip(1) =~= rest + t);
    }
}

proof fn lemma_word(w: Seq<char>, m: Seq<char>, t: Seq<char>)
    requires
        blank(w),
        is_word(m),
        t.len() > 0 ==> is_white(t[0]),
    ensures
        first_word(w + m + t) == m,
        after_word(w + m + t) == t,
{
    assert(w + m + t =~= w + (m + t));
    assert((m + t)[0] == m[0]);
    lemma_trim_start(w, m + t);
    lemma_until_white(m, t);
    assert((m + t).take(m.len() as int) =~= m);
    assert((m + t).skip(m.len() as int) =~= t);
}

/// A line and what follows it.
pub open spec fn followed(line: Seq<char>, rest: Seq<char>) -> Seq<char> {
    line + seq!['\n'] + rest
}

proof fn lemma_line(line: Seq<char>, rest: Seq<char>)
    requires
        free_of(line, '\n'),
    ensures
        first_line(followed(line, rest)) == without_return(line),
        after_line(followed(line, rest)) == rest,
{
    let s = followed(line, rest);
    let n = line.len() as int;
    assert(forall|j: int| 0 <= j < n ==> s[j] == line[j]);
    lemma_until_char_is(s, '\n', n);
    assert(s.take(n) =~= line);
    assert(s.skip(n + 1) =~= rest);
}

/// The first line of a request is words between white space: the first is
/// the method, and the second, up to its first `?`, is the path. What else
/// stands on the line, and on the lines below, makes no difference.
pub proof fn request_lines_are_words(
    lead: Seq<char>,
    method: Seq<char>,
    gap: Seq<char>,
    path: Seq<char>,
    query: Seq<char>,
    tail: Seq<char>,
    rest: Seq<char>,
)
    requires
        blank(lead),
        is_word(method),
        blank(gap),
        gap.len() > 0,
        is_word(path),
        free_of(path, '?'),
        forall|i: int| 0 <= i < query.len() ==> !is_white(#[trigger] query[i]),
        tail.len() > 0 ==> is_white(tail[0]),
        free_of(tail, '\n'),
    ensures
        ({
            let plain = followed(lead + method + gap + path + tail, rest);
            let asked = followed(lead + method + gap + path + seq!['?'] + query + tail, rest);
            &&& method_of(plain) == method
            &&& path_of(plain) == path
            &&& method_of(asked) == method
            &&& path_of(asked) == path
        }),
{
    let target = path + seq!['?'] + query;
    assert forall|i: int| 0 <= i < target.len() implies !is_white(#[trigger] target[i]) by {
        if i < path.len() {
            assert(target[i] == path[i]);
        } else if i > path.len() {
            assert(target[i] == query[i - path.len() - 1]);
        }
    }
    assert(lead + method + gap + path + seq!['?'] + query + tail =~= lead + method + gap + target
        + tail);
    lemma_until_char_is(target, '?', path.len() as int);
    assert(target.take(path.len() as int) =~= path);
    lemma_until_char_is(path, '?', path.len() as int);
    assert(path.take(path.len() as int) =~= path);
    lemma_request_line(lead, method, gap, path, tail, rest);
    lemma_request_line(lead, method, gap, target, tail, rest);
}

proof fn lemma_request_line(
    lead: Seq<char>,
    method: Seq<char>,
    gap: Seq<char>,
    target: Seq<char>,
    tail: Seq<char>,
    rest: Seq<char>,
)
    requires
        blank(lead),
        is_word(method),
        blank(gap),
        gap.len() > 0,
        is_word(target),
        tail.len() > 0 ==> is_white(tail[0]),
        free_of(tail, '\n'),
    ensures
        ({
            let text = followed(lead + method + gap + target + tail, rest);
            &&& method_of(text) == method
            &&& first_word(after_word(first_line(text))) == target
        }),
{
    let line = lead + method + gap + target + tail;
    assert forall|i: int| 0 <= i < line.len() implies line[i] != '\n' by {
        let a = lead.len() as int;
        let b = a + method.len();
        let c = b + gap.len();
        let d = c + target.len();
        if i < a {
            assert(line[i] == lead[i]);
        } else if i < b {
            assert(line[i] == method[i - a]);
        } else if i < c {
            assert(line[i] == gap[i - b]);
        } else if i < d {
            assert(line[i] == target[i - c]);
        } else {
            assert(line[i] == tail[i - d]);
        }
    }
    lemma_line(line, rest);
    let end = without_return(tail);
    assert(line.last() == if tail.len() > 0 {
        tail.last()
    } else {
        target.last()
    });
    assert(without_return(line) =~= lead + method + gap + target + end);
    assert(end.len() > 0 ==> end[0] == tail[0]);
    let after = gap + target + end;
    assert(lead + method + gap + target + end =~= lead + method + after);
    assert(after[0] == gap[0]);
    lemma_word(lead, method, after);
    lemma_word(gap, target, end);
}

/// The name of the length header, each letter in either case.
pub open spec fn length_name(s: Seq<char>) -> bool {
    s.len() == 14 && forall|i: int|
        0 <= i < 14 ==> #[trigger] s[i] == "content-length"@[i] || s[i] == "CONTENT-LENGTH"@[i]
}

proof fn lemma_either_case(c: char, low: char, up: char)
    requires
        ('a' <= low <= 'z' && up as u32 == low as u32 - 32) || (low == '-' && up == '-'),
    ensures
        ascii_lower(c) == ascii_lower(low) <==> c == low || c == up,
{
}

proof fn lemma_length_name(s: Seq<char>)
    ensures
        same_ignoring_case(s, "content-length"@) <==> length_name(s),
{
    reveal_strlit("content-length");
    reveal_strlit("CONTENT-LENGTH");
    let low = "content-length"@;
    let up = "CONTENT-LENGTH"@;
    assert forall|i: int| 0 <= i < 14 implies ('a' <= low[i] <= 'z' && up[i] as u32
        == #[trigger] low[i] as u32 - 32) || (low[i] == '-' && up[i] == '-') by {}
    if s.len() == 14 {
        assert forall|i: int| 0 <= i < 14 implies (ascii_lower(#[trigger] s[i]) == ascii_lower(
            low[i],
        ) <==> s[i] == low[i] || s[i] == up[i]) by {
            lemma_either_case(s[i], low[i], up[i]);
        }
    }
}

/// A text that does not start or end with white space.
pub open spec fn is_core(s: Seq<char>) -> bool {
    s.len() > 0 ==> !is_white(s[0]) && !is_white(s.last())
}

proof fn lemma_core(a: Seq<char>, s: Seq<char>, b: Seq<char>)
    requires
        blank(a),
        is_core(s),
        blank(b),
    ensures
        trimmed(a + s + b) == s,
{
    if s.len() > 0 {
        assert(a + s + b =~= a + (s + b));
        assert((s + b)[0] == s[0]);
        lemma_trim_start(a, s + b);
        lemma_trim_end(s, b);
    } else {
        let all = a + s + b;
        assert forall|i: int| 0 <= i < all.len() implies is_white(#[trigger] all[i]) && all[i]
            != '\n' by {
            if i < a.len() {
                assert(all[i] == a[i]);
            } else {
                assert(all[i] == b[i - a.len()]);
            }
        }
        lemma_trim_start(all, Seq::empty());
        assert(all + Seq::<char>::empty() =~= all);
        assert(s =~= Seq::empty());
    }
}

proof fn lemma_header(
    a: Seq<char>,
    name: Seq<char>,
    b: Seq<char>,
    c: Seq<char>,
    value: Seq<char>,
    d: Seq<char>,
)
    requires
        blank(a),
        is_core(name),
        free_of(name, ':'),
        blank(b),
        blank(c),
        is_core(value),
        blank(d),
    ensures
        line_length(without_return(a + name + b + seq![':'] + c + value + d)) == if length_name(
            name,
        ) {
            unsigned_value(value, usize::MAX as nat)
        } else {
            None
        },
{
    let key = a + name + b;
    let line = key + seq![':'] + c + value + d;
    assert(a + name + b + seq![':'] + c + value + d =~= line);
    assert forall|i: int| 0 <= i < key.len() implies key[i] != ':' by {
        if i < a.len() {
            assert(key[i] == a[i]);
        } else if i < a.len() + name.len() {
            assert(key[i] == name[i - a.len()]);
        } else {
            assert(key[i] == b[i - a.len() - name.len()]);
        }
    }
    let bare = without_return(line);
    lemma_core(a, name, b);
    lemma_length_name(name);
    if d.len() > 0 {
        let short = without_return(d);
        assert(line.last() == d.last());
        assert(bare =~= key + seq![':'] + c + value + short);
        lemma_bare(key, c, value, short);
    } else if value.len() > 0 {
        assert(line.last() == value.last());
        assert('\r' as u32 == 0xd);
        assert(bare =~= key + seq![':'] + c + value + d);
        lemma_bare(key, c, value, d);
    } else if c.len() > 0 {
        let short = without_return(c);
        assert(line.last() == c.last());
        assert(bare =~= key + seq![':'] + short + value + d);
        lemma_bare(key, short, value, d);
    } else {
        assert(line.last() == ':');
        assert(bare =~= key + seq![':'] + c + value + d);
        lemma_bare(key, c, value, d);
    }
}

proof fn lemma_bare(key: Seq<char>, c: Seq<char>, value: Seq<char>, d: Seq<char>)
    requires
        free_of(key, ':'),
        blank(c),
        is_core(value),
        blank(d),
    ensures
        ({
            let bare = key + seq![':'] + c + value + d;
            line_length(bare) == if same_ignoring_case(trimmed(key), "content-length"@) {
                unsigned_value(value, usize::MAX as nat)
            } else {
                None
            }
        }),
{
    let bare = key + seq![':'] + c + value + d;
    let p = key.len() as int;
    assert(forall|i: int| 0 <= i < p ==> bare[i] == key[i]);
    lemma_until_char_is(bare, ':', p);
    assert(bare.take(p) =~= key);
    assert(bare.skip(p + 1) =~= c + value + d);
    lemma_core(c, value, d);
}

/// A header line: white space, a name, white space, a colon, white space, a
/// value, white space.
pub open spec fn header(
    a: Seq<char>,
    name: Seq<char>,
    b: Seq<char>,
    c: Seq<char>,
    value: Seq<char>,
    d: Seq<char>,
) -> Seq<char> {
    a + name + b + seq![':'] + c + value + d
}

/// The body is as long as the first header line named `Content-Length`, in
/// any case, with a number for its value says. A line under another name is
/// passed over, and so is one whose value is no number.
pub proof fn length_header_announces(
    a: Seq<char>,
    name: Seq<char>,
    b: Seq<char>,
    c: Seq<char>,
    value: Seq<char>,
    d: Seq<char>,
    rest: Seq<char>,
)
    requires
        blank(a),
        is_core(name),
        free_of(name, ':'),
        free_of(name, '\n'),
        blank(b),
        blank(c),
        is_core(value),
        free_of(value, '\n'),
        blank(d),
    ensures
        ({
            let text = followed(header(a, name, b, c, value, d), rest);
            &&& forall|n: nat|
                length_name(name) && #[trigger] is_number(value, n) && n <= usize::MAX ==> announced(
                    text,
                ) == n
            &&& !length_name(name) ==> announced(text) == announced(rest)
            &&& (forall|n: nat| #[trigger] is_number(value, n) ==> n > usize::MAX) ==> announced(
                text,
            ) == announced(rest)
        }),
{
    let line = header(a, name, b, c, value, d);
    assert forall|i: int| 0 <= i < line.len() implies line[i] != '\n' by {
        let k = a.len() as int;
        let l = k + name.len();
        let m = l + b.len();
        let o = m + 1 + c.len();
        let q = o + value.len();
        if i < k {
            assert(line[i] == a[i]);
        } else if i < l {
            assert(line[i] == name[i - k]);
        } else if i < m {
            assert(line[i] == b[i - l]);
        } else if i == m {
        } else if i < o {
            assert(line[i] == c[i - m - 1]);
        } else if i < q {
            assert(line[i] == value[i - o]);
        } else {
            assert(line[i] == d[i - q]);
        }
    }
    lemma_line(line, rest);
    lemma_header(a, name, b, c, value, d);
    assert forall|n: nat| #[trigger] is_number(value, n) && n <= usize::MAX implies unsigned_value(
        value,
        usize::MAX as nat,
    ) == Some(n) by {
        numbers_are_read(value, usize::MAX as nat, n);
    }
    if let Some(m) = unsigned_value(value, usize::MAX as nat) {
        numbers_are_read(value, usize::MAX as nat, m);
        assert(is_number(value, m));
    }
}

/// A line without a colon announces nothing, nor does the first line of a
/// head, whatever it says; a head that announces nothing has no body.
pub proof fn other_lines_announce_nothing(line: Seq<char>, rest: Seq<char>)
    requires
        free_of(line, '\n'),
    ensures
        free_of(line, ':') ==> announced(followed(line, rest)) == announced(rest),
        declared_length(followed(line, rest)) == announced(rest),
        announced(Seq::empty()) == 0,
{
    lemma_line(line, rest);
    if free_of(line, ':') {
        let bare = without_return(line);
        lemma_until_char_is(bare, ':', bare.len() as int);
    }
}

/// A request is cut just behind its first blank line. What precedes is the
/// head, off whose text the method, the path and the length are read; what
/// follows is the body. It is complete once the body is as long as announced,
/// and given up once the head, or a body that is too short still, is longer
/// than 32768 bytes.
pub proof fn requests_are_cut_at_the_blank_line(bytes: Seq<u8>, chunk: Seq<u8>, end: int)
    requires
        chunk.len() > 0,
    ensures
        ({
            let all = bytes + chunk;
            let (state, step) = fed(ReadState::Head(bytes), chunk);
            let text = lossy(all.take(end));
            let body = all.skip(end);
            let first = blank_line(all, end) && forall|q: int| q < end ==> !#[trigger] blank_line(
                all,
                q,
            );
            let head = HeadView {
                bytes: all.take(end),
                path: path_of(text),
                method: method_of(text),
                body,
            };
            &&& first && end > 32768 ==> step is Abort
            &&& first && end <= 32768 && body.len() >= declared_length(text) ==> step
                == StepView::Done(head)
            &&& first && end <= 32768 && body.len() < declared_length(text) && body.len() <= 32768
                ==> step is More && state == ReadState::Body(head, declared_length(text))
            &&& first && end <= 32768 && body.len() < declared_length(text) && body.len() > 32768
                ==> step is Abort
            &&& (forall|q: int| !#[trigger] blank_line(all, q)) && all.len() <= 32768 ==> step
                is More && state == ReadState::Head(all)
            &&& (forall|q: int| !#[trigger] blank_line(all, q)) && all.len() > 32768 ==> step
                is Abort
        }),
{
    let all = bytes + chunk;
    head_ends_at_the_first_blank_line(all);
    if let Some(p) = head_end(all) {
        if p < end {
            assert(blank_line(all, p));
        } else if end < p {
            assert(!blank_line(all, end));
        }
    }
}

/// How the stream is cut into chunks makes no difference: two chunks, one
/// after the other, come to what both at once come to.
pub proof fn chunks_make_no_difference(bytes: Seq<u8>, a: Seq<u8>, b: Seq<u8>)
    requires
        a.len() > 0,
        b.len() > 0,
        fed(ReadState::Head(bytes), a).1 is More,
    ensures
        fed(fed(ReadState::Head(bytes), a).0, b) == fed(ReadState::Head(bytes), a + b),
{
    let all = bytes + a;
    let whole = bytes + (a + b);
    assert(all + b =~= whole);
    head_ends_at_the_first_blank_line(all);
    head_end_stays(all, b);
    if let Some(end) = head_end(all) {
        assert(whole.take(end) =~= all.take(end));
        assert(whole.skip(end) =~= all.skip(end) + b);
        assert(cut(whole, end) == (HeadView { body: cut(all, end).body + b, ..cut(all, end) }));
    }
}

/// A stream that ends before its request is complete is given up, and a
/// request is handed out once.
pub proof fn ended_streams_are_given_up(state: ReadState, chunk: Seq<u8>)
    ensures
        fed(state, Seq::empty()).1 is Abort,
        fed(ReadState::Over, chunk).1 is Abort,
        !(fed(state, chunk).1 is More) ==> fed(state, chunk).0 is Over,
{
}

}
