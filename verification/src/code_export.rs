//! The raw HTTP side of the accept loop: the request head, the static code
//! export, and plain responses.
//!
//! `GET /code/{sha256}` is a plain immutable download on the same port as
//! the socket. Content lives at exactly one address, so the response is the
//! bare bytes and may be cached for ever. The head that was read to decide
//! the route is replayed into the socket handshake when the route is not
//! one of these.

use crate::text::{
    all_hex, chars_of, decimal, decimal_text, find_char, find_white, hex_value, is_hex,
    lemma_until_char, lower, matches_ignoring_case, parse_unsigned, same, same_ignoring_case,
    skip_white, skip_white_back, starts_with, strip_prefix, trim_start, trimmed, unsigned_value,
    until_char, until_white,
};
use vstd::prelude::*;
use vstd::utf8::{decode_utf8, encode_utf8, valid_utf8};

verus! {

/// The head of a request may not be longer than this many bytes, nor may its
/// body grow beyond them before it is complete.
pub const BOUND: usize = 32768;

/// A request: the header bytes up to and including the blank line, and the
/// body where a length was announced.
pub struct Head {
    pub bytes: Vec<u8>,
    /// The request target without its query.
    pub path: String,
    pub method: String,
    pub body: Vec<u8>,
}

/// A request by what it holds.
pub struct HeadView {
    pub bytes: Seq<u8>,
    pub path: Seq<char>,
    pub method: Seq<char>,
    pub body: Seq<u8>,
}

impl View for Head {
    type V = HeadView;

    open spec fn view(&self) -> HeadView {
        HeadView {
            bytes: self.bytes@,
            path: self.path@,
            method: self.method@,
            body: self.body@,
        }
    }
}

impl Head {
    pub fn is_get(&self) -> (r: bool)
        ensures
            r == (self.method@ == "GET"@),
    {
        same(self.method.as_str(), "GET")
    }
}

/// A blank line ends at `p`.
pub open spec fn blank_line(b: Seq<u8>, p: int) -> bool {
    4 <= p <= b.len() && b[p - 4] == 13 && b[p - 3] == 10 && b[p - 2] == 13 && b[p - 1] == 10
}

/// The first end of a blank line at or after `p`.
pub open spec fn blank_line_from(b: Seq<u8>, p: int) -> Option<int>
    decreases b.len() + 1 - p,
{
    if p > b.len() {
        None
    } else if blank_line(b, p) {
        Some(p)
    } else {
        blank_line_from(b, p + 1)
    }
}

/// The end of the head: just behind the first blank line.
pub open spec fn head_end(b: Seq<u8>) -> Option<int> {
    blank_line_from(b, 0)
}

/// The text without one carriage return at its end.
pub open spec fn without_return(s: Seq<char>) -> Seq<char> {
    if s.len() > 0 && s.last() == '\r' {
        s.drop_last()
    } else {
        s
    }
}

/// The first line of a text, without its ending.
pub open spec fn first_line(s: Seq<char>) -> Seq<char> {
    let p = until_char(s, '\n');
    if p < s.len() {
        without_return(s.take(p))
    } else {
        s
    }
}

/// The lines after the first.
pub open spec fn after_line(s: Seq<char>) -> Seq<char> {
    let p = until_char(s, '\n');
    if p < s.len() {
        s.skip(p + 1)
    } else {
        Seq::empty()
    }
}

/// The first word of a line.
pub open spec fn first_word(s: Seq<char>) -> Seq<char> {
    let t = trim_start(s);
    t.take(until_white(t))
}

/// What follows the first word of a line.
pub open spec fn after_word(s: Seq<char>) -> Seq<char> {
    let t = trim_start(s);
    t.skip(until_white(t))
}

/// The method of a request: the first word of its first line.
pub open spec fn method_of(text: Seq<char>) -> Seq<char> {
    first_word(first_line(text))
}

/// The path of a request: the second word of its first line, up to the
/// query.
pub open spec fn path_of(text: Seq<char>) -> Seq<char> {
    let target = first_word(after_word(first_line(text)));
    target.take(until_char(target, '?'))
}

/// The length that a header line announces.
pub open spec fn line_length(line: Seq<char>) -> Option<nat> {
    let p = until_char(line, ':');
    if p < line.len() && same_ignoring_case(trimmed(line.take(p)), "content-length"@) {
        unsigned_value(trimmed(line.skip(p + 1)), usize::MAX as nat)
    } else {
        None
    }
}

/// The length that the first of the lines to do so announces, zero if none
/// does.
pub open spec fn announced(s: Seq<char>) -> nat
    decreases s.len(),
{
    if s.len() == 0 {
        0
    } else {
        match line_length(first_line(s)) {
            Some(n) => n,
            None => {
                proof {
                    lemma_until_char(s, '\n');
                }
                announced(after_line(s))
            },
        }
    }
}

/// The length of the body that a head announces, in a line after the first.
pub open spec fn declared_length(text: Seq<char>) -> nat {
    announced(after_line(text))
}

/// The text that `String::from_utf8_lossy` makes of bytes.
pub uninterp spec fn lossy(bytes: Seq<u8>) -> Seq<char>;

/// A request cut at the end of its head.
pub open spec fn cut(all: Seq<u8>, end: int) -> HeadView {
    HeadView {
        bytes: all.take(end),
        path: path_of(lossy(all.take(end))),
        method: method_of(lossy(all.take(end))),
        body: all.skip(end),
    }
}

/// How far the reading of a request has come.
pub enum ReadState {
    /// These bytes have come, and no blank line among them.
    Head(Seq<u8>),
    /// The head is there; the body is still shorter than announced.
    Body(HeadView, nat),
    /// The request was handed out, or given up.
    Over,
}

/// What to do after a read.
pub enum ReadStep {
    /// Read on.
    More,
    /// The request is complete.
    Done(Head),
    /// The request is given up.
    Abort,
}

/// A step by what it holds.
pub enum StepView {
    More,
    Done(HeadView),
    Abort,
}

impl View for ReadStep {
    type V = StepView;

    open spec fn view(&self) -> StepView {
        match self {
            ReadStep::More => StepView::More,
            ReadStep::Done(head) => StepView::Done(head@),
            ReadStep::Abort => StepView::Abort,
        }
    }
}

/// Whether a request is complete: once its body is as long as announced. A
/// body that outgrows the bound before that is given up.
pub open spec fn settled(head: HeadView, declared: nat) -> (ReadState, StepView) {
    if head.body.len() >= declared {
        (ReadState::Over, StepView::Done(head))
    } else if head.body.len() > BOUND {
        (ReadState::Over, StepView::Abort)
    } else {
        (ReadState::Body(head, declared), StepView::More)
    }
}

/// The reading of a request after one more chunk. An empty chunk is the end
/// of the stream.
pub open spec fn fed(state: ReadState, chunk: Seq<u8>) -> (ReadState, StepView) {
    if chunk.len() == 0 {
        (ReadState::Over, StepView::Abort)
    } else {
        match state {
            ReadState::Head(bytes) => {
                let all = bytes + chunk;
                match head_end(all) {
                    Some(end) => if end > BOUND {
                        (ReadState::Over, StepView::Abort)
                    } else {
                        settled(cut(all, end), declared_length(lossy(all.take(end))))
                    },
                    None => if all.len() > BOUND {
                        (ReadState::Over, StepView::Abort)
                    } else {
                        (ReadState::Head(all), StepView::More)
                    },
                }
            },
            ReadState::Body(head, declared) => settled(
                HeadView { body: head.body + chunk, ..head },
                declared,
            ),
            ReadState::Over => (ReadState::Over, StepView::Abort),
        }
    }
}

/// Where a chunk completes the head and the head is UTF-8, the text of the
/// head is the text that method, path and length are read off.
pub open spec fn head_known(state: ReadState, chunk: Seq<u8>) -> bool {
    match state {
        ReadState::Head(bytes) => match head_end(bytes + chunk) {
            Some(end) => {
                let head = (bytes + chunk).take(end);
                chunk.len() > 0 && end <= BOUND && valid_utf8(head) ==> lossy(head) == decode_utf8(
                    head,
                )
            },
            None => true,
        },
        _ => true,
    }
}

/// The digest that 64 hexadecimal digits spell.
pub open spec fn digest(hex: Seq<char>) -> Option<Seq<u8>> {
    if hex.len() == 64 && all_hex(hex) {
        Some(Seq::new(32, |i: int| (hex_value(hex[2 * i]) * 16 + hex_value(hex[2 * i + 1])) as u8))
    } else {
        None
    }
}

pub open spec fn reason(status: u16) -> Seq<char> {
    match status {
        400 => "Bad Request"@,
        404 => "Not Found"@,
        405 => "Method Not Allowed"@,
        409 => "Conflict"@,
        _ => "OK"@,
    }
}

/// The head of a response: its status line, its type and length, any
/// further header lines, and the announcement that the connection closes.
pub open spec fn response_head(
    status: u16,
    reason: Seq<char>,
    content_type: Seq<char>,
    length: nat,
    extra: Seq<char>,
) -> Seq<char> {
    "HTTP/1.1 "@ + decimal(status as nat) + " "@ + reason + "\r\nContent-Type: "@ + content_type
        + "\r\nContent-Length: "@ + decimal(length) + "\r\n"@ + extra
        + "Connection: close\r\n\r\n"@
}

/// A response: its head, then its body.
pub open spec fn response(
    status: u16,
    reason: Seq<char>,
    content_type: Seq<char>,
    extra: Seq<char>,
    body: Seq<u8>,
) -> Seq<u8> {
    encode_utf8(response_head(status, reason, content_type, body.len(), extra)) + body
}

/// A plain text response.
pub open spec fn plain_response(status: u16, msg: Seq<char>) -> Seq<u8> {
    response(status, reason(status), "text/plain; charset=utf-8"@, Seq::empty(), encode_utf8(msg))
}

/// What the export does with a request.
pub enum CodeStep {
    /// The route is another.
    NotMine,
    /// The answer, before any look at the store.
    Respond(Vec<u8>),
    /// The blob under this digest is asked for.
    Lookup([u8; 32]),
}

/// A step by what it holds.
pub enum CodeStepView {
    NotMine,
    Respond(Seq<u8>),
    Lookup(Seq<u8>),
}

impl View for CodeStep {
    type V = CodeStepView;

    open spec fn view(&self) -> CodeStepView {
        match self {
            CodeStep::NotMine => CodeStepView::NotMine,
            CodeStep::Respond(bytes) => CodeStepView::Respond(bytes@),
            CodeStep::Lookup(sha) => CodeStepView::Lookup(sha@),
        }
    }
}

/// The route decision of the export: a malformed address is refused before
/// the method is looked at, and only a GET asks the store.
pub open spec fn code_step(path: Seq<char>, method: Seq<char>) -> CodeStepView {
    if !starts_with(path, "/code/"@) {
        CodeStepView::NotMine
    } else {
        match digest(path.skip("/code/"@.len() as int)) {
            None => CodeStepView::Respond(
                plain_response(400, "expected /code/<64-char-hex-sha256>"@),
            ),
            Some(sha) => if method == "GET"@ {
                CodeStepView::Lookup(sha)
            } else {
                CodeStepView::Respond(plain_response(405, "GET only"@))
            },
        }
    }
}

/// What the store's answer becomes: the bare bytes, immutable for ever, or
/// a 404.
pub open spec fn code_answer(blob: Option<Seq<u8>>) -> Seq<u8> {
    match blob {
        Some(bytes) => response(
            200,
            "OK"@,
            "application/octet-stream"@,
            "Cache-Control: public, max-age=31536000, immutable\r\n"@,
            bytes,
        ),
        None => plain_response(404, "no blob under this address"@),
    }
}

pub open spec fn optional_bytes(bytes: Option<Vec<u8>>) -> Option<Seq<u8>> {
    match bytes {
        Some(bytes) => Some(bytes@),
        None => None,
    }
}

/// `String::from_utf8_lossy`: the text of the bytes where they are UTF-8;
/// elsewhere replacement characters stand for what is not.
#[verifier::external_body]
fn lossy_text(bytes: &[u8]) -> (text: String)
    ensures
        text@ == lossy(bytes@),
        valid_utf8(bytes@) ==> text@ == decode_utf8(bytes@),
{
    String::from_utf8_lossy(bytes).into_owned()
}

/// The end of the head in the bytes read so far.
pub fn find_head_end(b: &[u8]) -> (end: Option<usize>)
    ensures
        match end {
            Some(p) => head_end(b@) == Some(p as int) && blank_line(b@, p as int),
            None => head_end(b@) is None,
        },
{
    let n: usize = b.len();
    if n < 4 {
        proof {
            lemma_no_blank_line(b@, 0);
        }
        return None;
    }
    let mut p: usize = 4;
    proof {
        reveal_with_fuel(blank_line_from, 5);
    }
    loop
        invariant
            n == b@.len(),
            4 <= p <= n,
            head_end(b@) == blank_line_from(b@, p as int),
        decreases n - p,
    {
        if b[p - 4] == 13 && b[p - 3] == 10 && b[p - 2] == 13 && b[p - 1] == 10 {
            return Some(p);
        }
        assert(head_end(b@) == blank_line_from(b@, p + 1));
        if p == n {
            return None;
        }
        p = p + 1;
    }
}

proof fn lemma_no_blank_line(b: Seq<u8>, p: int)
    requires
        b.len() < 4,
    ensures
        blank_line_from(b, p) is None,
    decreases b.len() + 1 - p,
{
    if p <= b.len() {
        lemma_no_blank_line(b, p + 1);
    }
}

/// The end of the first line of `s[from..to]`, and the start of the next.
fn line(s: &Vec<char>, from: usize, to: usize) -> (ends: (usize, usize))
    requires
        from <= to <= s@.len(),
    ensures
        from <= ends.0 <= to,
        from <= ends.1 <= to,
        from < to ==> from < ends.1,
        s@.subrange(from as int, ends.0 as int) == first_line(
            s@.subrange(from as int, to as int),
        ),
        s@.subrange(ends.1 as int, to as int) == after_line(s@.subrange(from as int, to as int)),
{
    let ghost part = s@.subrange(from as int, to as int);
    let p: usize = find_char(s, '\n', from, to);
    if p == to {
        assert(s@.subrange(to as int, to as int) =~= Seq::<char>::empty());
        return (to, to);
    }
    assert(part.take(p - from) =~= s@.subrange(from as int, p as int));
    assert(part.skip(p - from + 1) =~= s@.subrange(p + 1, to as int));
    if p > from && s[p - 1] == '\r' {
        assert(s@.subrange(from as int, p as int).drop_last() =~= s@.subrange(from as int, p - 1));
        (p - 1, p + 1)
    } else {
        (p, p + 1)
    }
}

/// The first word of `s[from..to]`.
fn word(s: &Vec<char>, from: usize, to: usize) -> (ends: (usize, usize))
    requires
        from <= to <= s@.len(),
    ensures
        from <= ends.0 <= ends.1 <= to,
        s@.subrange(ends.0 as int, ends.1 as int) == first_word(
            s@.subrange(from as int, to as int),
        ),
        s@.subrange(ends.1 as int, to as int) == after_word(s@.subrange(from as int, to as int)),
{
    let start: usize = skip_white(s, from, to);
    let end: usize = find_white(s, start, to);
    let ghost t = s@.subrange(start as int, to as int);
    assert(t.take(end - start) =~= s@.subrange(start as int, end as int));
    assert(t.skip(end - start) =~= s@.subrange(end as int, to as int));
    (start, end)
}

/// The method and the path in the text of a request.
pub fn request_line(text: &str) -> (r: (String, String))
    ensures
        r.0@ == method_of(text@),
        r.1@ == path_of(text@),
{
    let chars = chars_of(text);
    let n: usize = chars.len();
    assert(chars@.subrange(0, n as int) =~= text@);
    let (end, _) = line(&chars, 0, n);
    let (a, b) = word(&chars, 0, end);
    let method = text.substring_char(a, b).to_string();
    let (c, d) = word(&chars, b, end);
    let e: usize = find_char(&chars, '?', c, d);
    assert(chars@.subrange(c as int, d as int).take(e - c) =~= text@.subrange(c as int, e as int));
    let path = text.substring_char(c, e).to_string();
    (method, path)
}

/// The length that one header line announces.
fn length_in_line(s: &Vec<char>, from: usize, to: usize) -> (n: Option<usize>)
    requires
        from <= to <= s@.len(),
    ensures
        match line_length(s@.subrange(from as int, to as int)) {
            Some(v) => n == Some(v as usize) && v <= usize::MAX,
            None => n is None,
        },
{
    let ghost part = s@.subrange(from as int, to as int);
    let p: usize = find_char(s, ':', from, to);
    if p == to {
        return None;
    }
    assert(part.take(p - from) =~= s@.subrange(from as int, p as int));
    assert(part.skip(p - from + 1) =~= s@.subrange(p + 1, to as int));
    let a: usize = skip_white(s, from, p);
    let b: usize = skip_white_back(s, a, p);
    if !matches_ignoring_case(s, a, b, "content-length") {
        return None;
    }
    let c: usize = skip_white(s, p + 1, to);
    let d: usize = skip_white_back(s, c, to);
    match parse_unsigned(s, c, d, usize::MAX as u64) {
        Some(v) => Some(v as usize),
        None => None,
    }
}

/// The length of the body that the text of a head announces.
pub fn content_length(head_text: &str) -> (n: usize)
    ensures
        n == declared_length(head_text@),
{
    let s = chars_of(head_text);
    let to: usize = s.len();
    assert(s@.subrange(0, to as int) =~= head_text@);
    let (_, next) = line(&s, 0, to);
    let mut from: usize = next;
    while from < to
        invariant
            from <= to == s@.len(),
            declared_length(head_text@) == announced(s@.subrange(from as int, to as int)),
        decreases to - from,
    {
        let (end, next) = line(&s, from, to);
        if let Some(n) = length_in_line(&s, from, end) {
            return n;
        }
        from = next;
    }
    0
}

/// Reads a request off the chunks of a stream.
pub struct HeadReader {
    bytes: Vec<u8>,
    head: Option<Head>,
    declared: usize,
    over: bool,
}

impl View for HeadReader {
    type V = ReadState;

    closed spec fn view(&self) -> ReadState {
        if self.over {
            ReadState::Over
        } else {
            match self.head {
                Some(head) => ReadState::Body(head@, self.declared as nat),
                None => ReadState::Head(self.bytes@),
            }
        }
    }
}

impl HeadReader {
    pub fn new() -> (reader: Self)
        ensures
            reader@ == ReadState::Head(Seq::empty()),
    {
        HeadReader { bytes: Vec::new(), head: None, declared: 0, over: false }
    }

    /// Takes the next chunk of the stream; an empty one is its end.
    pub fn feed(&mut self, chunk: &[u8]) -> (step: ReadStep)
        ensures
            (final(self)@, step@) == fed(old(self)@, chunk@),
            head_known(old(self)@, chunk@),
    {
        if chunk.len() == 0 || self.over {
            self.over = true;
            return ReadStep::Abort;
        }
        let mut found: Option<Head> = None;
        std::mem::swap(&mut found, &mut self.head);
        match found {
            Some(mut head) => {
                let ghost before = head@;
                head.body.extend_from_slice(chunk);
                assert(head.body@ =~= before.body + chunk@);
                self.settle(head)
            },
            None => {
                let ghost before = self.bytes@;
                self.bytes.extend_from_slice(chunk);
                assert(self.bytes@ =~= before + chunk@);
                match find_head_end(self.bytes.as_slice()) {
                    Some(end) => {
                        if end > BOUND {
                            self.over = true;
                            return ReadStep::Abort;
                        }
                        let mut bytes: Vec<u8> = Vec::new();
                        std::mem::swap(&mut bytes, &mut self.bytes);
                        let ghost all = bytes@;
                        let body = bytes.split_off(end);
                        assert(body@ =~= all.skip(end as int));
                        assert(bytes@ =~= all.take(end as int));
                        let text = lossy_text(bytes.as_slice());
                        let (method, path) = request_line(text.as_str());
                        self.declared = content_length(text.as_str());
                        self.settle(Head { bytes, path, method, body })
                    },
                    None => {
                        if self.bytes.len() > BOUND {
                            self.over = true;
                            return ReadStep::Abort;
                        }
                        ReadStep::More
                    },
                }
            },
        }
    }

    /// Hands the request out once it is complete.
    fn settle(&mut self, head: Head) -> (step: ReadStep)
        requires
            !old(self).over,
        ensures
            (final(self)@, step@) == settled(head@, old(self).declared as nat),
    {
        if head.body.len() >= self.declared {
            self.over = true;
            ReadStep::Done(head)
        } else if head.body.len() > BOUND {
            self.over = true;
            ReadStep::Abort
        } else {
            self.head = Some(head);
            ReadStep::More
        }
    }
}

/// The head of a request, to be read once more before the stream it came
/// from.
pub struct Replay {
    bytes: Vec<u8>,
    at: usize,
}

impl View for Replay {
    type V = Seq<u8>;

    /// What is left to be read.
    closed spec fn view(&self) -> Seq<u8> {
        self.bytes@.skip(self.at as int)
    }
}

impl Replay {
    #[verifier::type_invariant]
    spec fn within(self) -> bool {
        self.at <= self.bytes@.len()
    }

    pub fn new(head: Vec<u8>) -> (replay: Self)
        ensures
            replay@ == head@,
    {
        let replay = Replay { bytes: head, at: 0 };
        assert(replay@ =~= head@);
        replay
    }

    /// The next bytes, as many as there is room for; nothing once all have
    /// been read, when the stream is next.
    pub fn take(&mut self, room: usize) -> (bytes: Option<Vec<u8>>)
        ensures
            match bytes {
                Some(b) => b@ + final(self)@ == old(self)@ && b@.len() == if old(self)@.len()
                    < room {
                    old(self)@.len() as int
                } else {
                    room as int
                } && old(self)@.len() > 0,
                None => old(self)@.len() == 0 && final(self)@ == old(self)@,
            },
    {
        proof {
            use_type_invariant(&*self);
        }
        let left: usize = self.bytes.len() - self.at;
        if left == 0 {
            return None;
        }
        let n: usize = if left < room {
            left
        } else {
            room
        };
        let end: usize = self.at + n;
        let mut bytes: Vec<u8> = Vec::new();
        let mut i: usize = self.at;
        while i < end
            invariant
                self.at <= i <= end <= self.bytes@.len(),
                bytes@ == self.bytes@.subrange(self.at as int, i as int),
            decreases end - i,
        {
            bytes.push(self.bytes[i]);
            i = i + 1;
        }
        let ghost before = self@;
        self.at = end;
        assert(bytes@ + self@ =~= before);
        Some(bytes)
    }
}

/// The value of a hexadecimal digit.
fn hex_digit(c: char) -> (v: u8)
    requires
        is_hex(c),
    ensures
        v == hex_value(c),
        v < 16,
{
    let l: u32 = lower(c) as u32;
    if c <= '9' {
        (c as u32 - 48) as u8
    } else {
        (l - 87) as u8
    }
}

/// Reads an address: exactly 64 hexadecimal digits of either case.
pub fn parse_sha(hex: &str) -> (sha: Option<[u8; 32]>)
    ensures
        match digest(hex@) {
            Some(d) => sha matches Some(s) && s@ == d,
            None => sha is None,
        },
{
    let chars = chars_of(hex);
    if chars.len() != 64 {
        return None;
    }
    let mut out = [0u8; 32];
    let mut i: usize = 0;
    while i < 32
        invariant
            i <= 32,
            chars@.len() == 64,
            chars@ == hex@,
            forall|j: int| 0 <= j < 2 * i ==> is_hex(#[trigger] chars@[j]),
            forall|j: int|
                0 <= j < i ==> #[trigger] out@[j] == (hex_value(chars@[2 * j]) * 16 + hex_value(
                    chars@[2 * j + 1],
                )) as u8,
        decreases 32 - i,
    {
        let hi = chars[2 * i];
        let lo = chars[2 * i + 1];
        if !crate::text::hex(hi) || !crate::text::hex(lo) {
            return None;
        }
        let v: u8 = hex_digit(hi) * 16 + hex_digit(lo);
        out[i] = v;
        i = i + 1;
    }
    assert(out@ =~= digest(hex@)->Some_0);
    Some(out)
}

fn reason_text(status: u16) -> (text: &'static str)
    ensures
        text@ == reason(status),
{
    match status {
        400 => "Bad Request",
        404 => "Not Found",
        405 => "Method Not Allowed",
        409 => "Conflict",
        _ => "OK",
    }
}

/// A response, put together.
pub(crate) fn respond(
    status: u16,
    reason: &str,
    content_type: &str,
    extra: &str,
    body: &[u8],
) -> (bytes: Vec<u8>)
    ensures
        bytes@ == response(status, reason@, content_type@, extra@, body@),
{
    let mut text = "HTTP/1.1 ".to_string();
    text.append(decimal_text(status as u64).as_str());
    text.append(" ");
    text.append(reason);
    text.append("\r\nContent-Type: ");
    text.append(content_type);
    text.append("\r\nContent-Length: ");
    text.append(decimal_text(body.len() as u64).as_str());
    text.append("\r\n");
    text.append(extra);
    text.append("Connection: close\r\n\r\n");
    let mut bytes = text.as_str().as_bytes_vec();
    bytes.extend_from_slice(body);
    bytes
}

/// A plain text response.
pub fn plain(status: u16, msg: &str) -> (bytes: Vec<u8>)
    ensures
        bytes@ == plain_response(status, msg@),
{
    proof {
        reveal_strlit("");
        assert(""@ =~= Seq::<char>::empty());
    }
    respond(status, reason_text(status), "text/plain; charset=utf-8", "", msg.as_bytes())
}

/// The route decision of the export.
pub fn serve_code_export(head: &Head) -> (step: CodeStep)
    ensures
        step@ == code_step(head.path@, head.method@),
{
    match strip_prefix(head.path.as_str(), "/code/") {
        None => CodeStep::NotMine,
        Some(hex) => match parse_sha(hex) {
            None => CodeStep::Respond(plain(400, "expected /code/<64-char-hex-sha256>")),
            Some(sha) => if head.is_get() {
                CodeStep::Lookup(sha)
            } else {
                CodeStep::Respond(plain(405, "GET only"))
            },
        },
    }
}

/// The response to a lookup.
pub fn code_response(blob: Option<Vec<u8>>) -> (bytes: Vec<u8>)
    ensures
        bytes@ == code_answer(optional_bytes(blob)),
{
    match blob {
        Some(bytes) => respond(
            200,
            "OK",
            "application/octet-stream",
            "Cache-Control: public, max-age=31536000, immutable\r\n",
            bytes.as_slice(),
        ),
        None => plain(404, "no blob under this address"),
    }
}

/// The end of the head is the first place behind a blank line, and it is
/// missing only where there is no blank line.
pub proof fn head_ends_at_the_first_blank_line(b: Seq<u8>)
    ensures
        match head_end(b) {
            Some(p) => blank_line(b, p) && forall|q: int| q < p ==> !#[trigger] blank_line(b, q),
            None => forall|q: int| !#[trigger] blank_line(b, q),
        },
{
    lemma_blank_line_from(b, 0);
}

proof fn lemma_blank_line_from(b: Seq<u8>, from: int)
    ensures
        match blank_line_from(b, from) {
            Some(p) => from <= p && blank_line(b, p) && forall|q: int|
                from <= q < p ==> !#[trigger] blank_line(b, q),
            None => forall|q: int| from <= q ==> !#[trigger] blank_line(b, q),
        },
    decreases b.len() + 1 - from,
{
    if from <= b.len() && !blank_line(b, from) {
        lemma_blank_line_from(b, from + 1);
    }
}

/// What comes after the head does not move its end: how the stream is cut
/// into chunks makes no difference to where the head ends.
pub proof fn head_end_stays(b: Seq<u8>, more: Seq<u8>)
    ensures
        head_end(b) is Some ==> head_end(b + more) == head_end(b),
{
    let all = b + more;
    head_ends_at_the_first_blank_line(b);
    head_ends_at_the_first_blank_line(all);
    if let Some(p) = head_end(b) {
        assert(blank_line(all, p));
        assert forall|q: int| q < p implies !#[trigger] blank_line(all, q) by {
            assert(!blank_line(b, q));
        }
    }
}

/// Every byte that was read so far and not handed out.
pub open spec fn held(state: ReadState) -> Seq<u8> {
    match state {
        ReadState::Head(bytes) => bytes,
        ReadState::Body(head, _) => head.bytes + head.body,
        ReadState::Over => Seq::empty(),
    }
}

/// Reading loses no byte and adds none: what is held grows by the chunk, and
/// a request that is handed out is the bytes that came, cut in two. So the
/// head can be replayed into the socket handshake.
pub proof fn reading_loses_nothing(state: ReadState, chunk: Seq<u8>)
    ensures
        match fed(state, chunk) {
            (after, StepView::More) => held(after) == held(state) + chunk,
            (_, StepView::Done(head)) => head.bytes + head.body == held(state) + chunk,
            (_, StepView::Abort) => true,
        },
{
    match state {
        ReadState::Head(bytes) => {
            let all = bytes + chunk;
            head_ends_at_the_first_blank_line(all);
            if let Some(end) = head_end(all) {
                assert(all.take(end) + all.skip(end) =~= all);
            }
        },
        ReadState::Body(head, _) => {
            assert(head.bytes + head.body + chunk =~= head.bytes + (head.body + chunk));
        },
        ReadState::Over => {},
    }
}

/// The head is complete.
pub open spec fn head_complete(bytes: Seq<u8>) -> bool {
    head_end(bytes) == Some(bytes.len() as int)
}

/// What a reader can be in the middle of: a head without a blank line, or a
/// complete head with too short a body, neither beyond the bound.
pub open spec fn reading(state: ReadState) -> bool {
    match state {
        ReadState::Head(bytes) => head_end(bytes) is None && bytes.len() <= BOUND,
        ReadState::Body(head, declared) => head_complete(head.bytes) && head.bytes.len() <= BOUND
            && head.body.len() < declared && head.body.len() <= BOUND,
        ReadState::Over => true,
    }
}

/// A reader starts in the middle of nothing and never leaves its bounds; a
/// request that it hands out has a complete head, ended by its first blank
/// line and no longer than the bound.
pub proof fn reading_stays_bounded(state: ReadState, chunk: Seq<u8>)
    requires
        reading(state),
    ensures
        reading(ReadState::Head(Seq::empty())),
        reading(fed(state, chunk).0),
        fed(state, chunk).1 matches StepView::Done(head) ==> head_complete(head.bytes)
            && head.bytes.len() <= BOUND,
{
    lemma_no_blank_line(Seq::empty(), 0);
    match state {
        ReadState::Head(bytes) => {
            let all = bytes + chunk;
            head_ends_at_the_first_blank_line(all);
            if let Some(end) = head_end(all) {
                let head = all.take(end);
                head_ends_at_the_first_blank_line(head);
                assert(blank_line(head, end));
                assert forall|q: int| q < end implies !#[trigger] blank_line(head, q) by {
                    assert(!blank_line(all, q));
                }
            }
        },
        _ => {},
    }
}

/// The digits of a digest.
pub open spec fn hex_text(sha: Seq<u8>) -> Seq<char> {
    Seq::new(
        2 * sha.len(),
        |i: int|
            hex_char(
                if i % 2 == 0 {
                    sha[i / 2] as int / 16
                } else {
                    sha[i / 2] as int % 16
                },
            ),
    )
}

pub open spec fn hex_char(v: int) -> char {
    if v < 10 {
        ('0' as u32 + v) as char
    } else {
        ('a' as u32 + v - 10) as char
    }
}

/// Every digest has an address: its digits read back as the digest.
pub proof fn digest_reads_back(sha: Seq<u8>)
    requires
        sha.len() == 32,
    ensures
        digest(hex_text(sha)) == Some(sha),
{
    let text = hex_text(sha);
    assert forall|v: int| 0 <= v < 16 implies is_hex(#[trigger] hex_char(v)) && hex_value(
        hex_char(v),
    ) == v by {}
    assert forall|i: int| 0 <= i < 64 implies is_hex(#[trigger] text[i]) by {}
    let read = digest(text)->Some_0;
    assert forall|i: int| 0 <= i < 32 implies #[trigger] read[i] == sha[i] by {
        assert(text[2 * i] == hex_char(sha[i] as int / 16));
        assert(text[2 * i + 1] == hex_char(sha[i] as int % 16));
    }
    assert(read =~= sha);
}

/// A digest has one address only, up to the case of its digits.
pub proof fn digest_has_one_address(a: Seq<char>, b: Seq<char>)
    requires
        digest(a) is Some,
        digest(a) == digest(b),
    ensures
        same_ignoring_case(a, b),
{
    let x = digest(a)->Some_0;
    let y = digest(b)->Some_0;
    assert forall|i: int| 0 <= i < a.len() implies crate::text::ascii_lower(#[trigger] a[i])
        == crate::text::ascii_lower(b[i]) by {
        let k = i / 2;
        assert(x[k] == y[k]);
        assert(is_hex(a[2 * k]) && is_hex(a[2 * k + 1]) && is_hex(b[2 * k]) && is_hex(b[2 * k + 1]));
        assert(hex_value(a[2 * k]) == hex_value(b[2 * k]));
        assert(hex_value(a[2 * k + 1]) == hex_value(b[2 * k + 1]));
        assert(i == 2 * k || i == 2 * k + 1);
    }
}

}
