//! What the code export answers, said of the address and the digest digit by
//! digit, and the responses as they are sent.

use crate::admin::{administered, json_bytes, under_admin};
use crate::code_export::{
    code_answer, code_step, digest, plain_response, response_head, CodeStepView, HeadView,
};
use crate::gateway::{routed, GatewayView, RoutedView};
use crate::json::{json_text, JsonView};
use crate::text::{decimal, digit_char, hex_value, is_hex, starts_with};
use vstd::prelude::*;
use vstd::utf8::encode_utf8;

verus! {

/// The character is the hexadecimal digit of a value below 16, in either
/// case.
pub open spec fn hex_digit(c: char, value: int) -> bool {
    if value < 10 {
        c as u32 == 48 + value
    } else {
        c as u32 == 87 + value || c as u32 == 55 + value
    }
}

/// The text spells the digest: two digits for each byte, the high one first,
/// from the first byte to the last.
pub open spec fn spells(hex: Seq<char>, sha: Seq<u8>) -> bool {
    &&& sha.len() == 32
    &&& hex.len() == 64
    &&& forall|i: int|
        0 <= i < 32 ==> hex_digit(hex[2 * i], #[trigger] sha[i] as int / 16) && hex_digit(
            hex[2 * i + 1],
            sha[i] as int % 16,
        )
}

proof fn lemma_hex_digit(c: char, value: int)
    requires
        0 <= value < 16,
    ensures
        hex_digit(c, value) <==> is_hex(c) && hex_value(c) == value,
{
}

proof fn lemma_digest(hex: Seq<char>, sha: Seq<u8>)
    ensures
        digest(hex) == Some(sha) <==> spells(hex, sha),
{
    if spells(hex, sha) {
        assert forall|j: int| 0 <= j < 64 implies is_hex(#[trigger] hex[j]) by {
            let i = j / 2;
            let b = sha[i] as int;
            lemma_hex_digit(hex[2 * i], b / 16);
            lemma_hex_digit(hex[2 * i + 1], b % 16);
            assert(j == 2 * i || j == 2 * i + 1);
        }
        let read = digest(hex).unwrap();
        assert forall|i: int| 0 <= i < 32 implies read[i] == sha[i] by {
            let b = sha[i] as int;
            lemma_hex_digit(hex[2 * i], b / 16);
            lemma_hex_digit(hex[2 * i + 1], b % 16);
        }
        assert(read =~= sha);
    }
    if digest(hex) == Some(sha) {
        assert forall|i: int| 0 <= i < 32 implies hex_digit(
            hex[2 * i],
            #[trigger] sha[i] as int / 16,
        ) && hex_digit(hex[2 * i + 1], sha[i] as int % 16) by {
            let high = hex[2 * i];
            let low = hex[2 * i + 1];
            assert(is_hex(high) && is_hex(low));
            assert(sha[i] as int == hex_value(high) * 16 + hex_value(low));
            lemma_hex_digit(high, sha[i] as int / 16);
            lemma_hex_digit(low, sha[i] as int % 16);
        }
    }
}

/// The path of an address is none of the admin surface's.
proof fn lemma_code_path(address: Seq<char>)
    ensures
        starts_with("/code/"@ + address, "/code/"@),
        ("/code/"@ + address).skip("/code/"@.len() as int) == address,
        !under_admin("/code/"@ + address),
{
    reveal_strlit("/code/");
    reveal_strlit("/admin");
    reveal_strlit("/admin/");
    let path = "/code/"@ + address;
    assert(path.take("/code/"@.len() as int) =~= "/code/"@);
    assert(path.skip("/code/"@.len() as int) =~= address);
    assert(path[1] == 'c' && "/admin"@[1] == 'a');
    if starts_with(path, "/admin/"@) {
        assert(path.take("/admin/"@.len() as int)[1] == "/admin/"@[1]);
    }
}

/// A GET of an address asks for exactly the digest that its 64 digits spell,
/// byte by byte from the first, whatever the case of each digit; the request
/// changes nothing.
pub proof fn address_asks_for_the_digest_it_spells(
    s: GatewayView,
    head: HeadView,
    hex: Seq<char>,
    sha: Seq<u8>,
    now: u64,
)
    requires
        spells(hex, sha),
        head.path == "/code/"@ + hex,
    ensures
        head.method == "GET"@ ==> {
            &&& code_step(head.path, head.method) == CodeStepView::Lookup(sha)
            &&& routed(s, head, now) == (s, RoutedView::Lookup(sha))
        },
        head.method != "GET"@ ==> {
            &&& code_step(head.path, head.method) == CodeStepView::Respond(
                plain_response(405, "GET only"@),
            )
            &&& routed(s, head, now) == (s, RoutedView::Respond(plain_response(405, "GET only"@)))
        },
{
    lemma_code_path(hex);
    lemma_digest(hex, sha);
}

/// The export asks for a digest only where the request is a GET of the
/// address that spells it.
pub proof fn every_lookup_has_its_address(
    s: GatewayView,
    head: HeadView,
    sha: Seq<u8>,
    now: u64,
)
    ensures
        code_step(head.path, head.method) == CodeStepView::Lookup(sha) ==> {
            &&& head.method == "GET"@
            &&& head.path == "/code/"@ + head.path.skip(6)
            &&& spells(head.path.skip(6), sha)
        },
        routed(s, head, now).1 == RoutedView::Lookup(sha) ==> {
            &&& head.method == "GET"@
            &&& head.path == "/code/"@ + head.path.skip(6)
            &&& spells(head.path.skip(6), sha)
        },
{
    reveal_strlit("/code/");
    let address = head.path.skip(6);
    lemma_digest(address, sha);
    if starts_with(head.path, "/code/"@) {
        assert(head.path =~= head.path.take(6) + address);
    }
}

/// An address that spells no digest is refused, whatever the method; a path
/// outside `/code/` is none of the export's, and outside `/admin` too it goes
/// on to the socket.
pub proof fn other_paths_are_refused_or_passed_on(
    s: GatewayView,
    head: HeadView,
    address: Seq<char>,
    now: u64,
)
    ensures
        head.path == "/code/"@ + address && (forall|sha: Seq<u8>| !#[trigger] spells(address, sha))
            ==> {
            let refusal = plain_response(400, "expected /code/<64-char-hex-sha256>"@);
            &&& code_step(head.path, head.method) == CodeStepView::Respond(refusal)
            &&& routed(s, head, now) == (s, RoutedView::Respond(refusal))
        },
        head.path.take(6) != "/code/"@ || head.path.len() < 6 ==> {
            &&& code_step(head.path, head.method) == CodeStepView::NotMine
            &&& head.path != "/admin"@ && (head.path.len() < 7 || head.path.take(7) != "/admin/"@)
                ==> routed(s, head, now) == (s, RoutedView::Upgrade)
        },
{
    reveal_strlit("/code/");
    reveal_strlit("/admin/");
    if head.path == "/code/"@ + address {
        lemma_code_path(address);
        match digest(address) {
            Some(sha) => {
                lemma_digest(address, sha);
            },
            None => {},
        }
    }
}

/// A request under `/admin` is answered by the admin surface, and touches
/// nothing of the gateway but the node records.
pub proof fn admin_requests_touch_the_nodes_only(s: GatewayView, head: HeadView, now: u64)
    requires
        head.path == "/admin"@ || (head.path.len() >= 7 && head.path.take(7) == "/admin/"@),
    ensures
        ({
            let (nodes, answer) = administered(
                s.registry.nodes,
                head.method,
                head.path,
                head.body,
                now,
            );
            let (after, r) = routed(s, head, now);
            &&& r matches RoutedView::Respond(bytes) && answer == Some(bytes)
            &&& after.registry.nodes == nodes
            &&& after.registry.accounts == s.registry.accounts
            &&& after.registry.devices == s.registry.devices
            &&& after.posture == s.posture
            &&& after.conns == s.conns
            &&& after.next_id == s.next_id
        }),
{
    reveal_strlit("/admin/");
}

/// A response as it is sent: its status line, its type, the length of its
/// body, and the body.
pub open spec fn sent(
    bytes: Seq<u8>,
    status_line: Seq<char>,
    content_type: Seq<char>,
    body: Seq<u8>,
) -> bool {
    bytes == encode_utf8(
        status_line + "\r\nContent-Type: "@ + content_type + "\r\nContent-Length: "@ + decimal(
            body.len(),
        ) + "\r\nConnection: close\r\n\r\n"@,
    ) + body
}

proof fn lemma_three_digits(n: nat)
    requires
        100 <= n < 1000,
    ensures
        decimal(n) == seq![digit_char(n / 100), digit_char(n / 10 % 10), digit_char(n % 10)],
{
    reveal_with_fuel(decimal, 3);
    assert(decimal(n) =~= seq![digit_char(n / 100), digit_char(n / 10 % 10), digit_char(n % 10)]);
}

proof fn lemma_status_line(
    status: u16,
    reason: Seq<char>,
    content_type: Seq<char>,
    length: nat,
    line: Seq<char>,
)
    requires
        100 <= status < 1000,
        line == "HTTP/1.1 "@ + decimal(status as nat) + " "@ + reason,
    ensures
        response_head(status, reason, content_type, length, Seq::empty()) == line
            + "\r\nContent-Type: "@ + content_type + "\r\nContent-Length: "@ + decimal(length)
            + "\r\nConnection: close\r\n\r\n"@,
{
    reveal_strlit("\r\n");
    reveal_strlit("Connection: close\r\n\r\n");
    reveal_strlit("\r\nConnection: close\r\n\r\n");
    let front = line + "\r\nContent-Type: "@ + content_type + "\r\nContent-Length: "@ + decimal(
        length,
    );
    assert("\r\n"@ + "Connection: close\r\n\r\n"@ =~= "\r\nConnection: close\r\n\r\n"@);
    assert(front + "\r\n"@ + Seq::<char>::empty() + "Connection: close\r\n\r\n"@ =~= front + (
    "\r\n"@ + "Connection: close\r\n\r\n"@));
}

/// Every plain response is sent under the status line of its status, as
/// plain text.
pub proof fn plain_responses_as_sent(msg: Seq<char>)
    ensures
        ({
            let kind = "text/plain; charset=utf-8"@;
            let body = encode_utf8(msg);
            &&& sent(plain_response(400, msg), "HTTP/1.1 400 Bad Request"@, kind, body)
            &&& sent(plain_response(404, msg), "HTTP/1.1 404 Not Found"@, kind, body)
            &&& sent(plain_response(405, msg), "HTTP/1.1 405 Method Not Allowed"@, kind, body)
            &&& sent(plain_response(409, msg), "HTTP/1.1 409 Conflict"@, kind, body)
        }),
{
    reveal_strlit("HTTP/1.1 ");
    reveal_strlit(" ");
    reveal_strlit("Bad Request");
    reveal_strlit("Not Found");
    reveal_strlit("Method Not Allowed");
    reveal_strlit("Conflict");
    reveal_strlit("HTTP/1.1 400 Bad Request");
    reveal_strlit("HTTP/1.1 404 Not Found");
    reveal_strlit("HTTP/1.1 405 Method Not Allowed");
    reveal_strlit("HTTP/1.1 409 Conflict");
    let kind = "text/plain; charset=utf-8"@;
    let length = encode_utf8(msg).len();
    lemma_three_digits(400);
    lemma_three_digits(404);
    lemma_three_digits(405);
    lemma_three_digits(409);
    assert("HTTP/1.1 "@ + decimal(400) + " "@ + "Bad Request"@ =~= "HTTP/1.1 400 Bad Request"@);
    assert("HTTP/1.1 "@ + decimal(404) + " "@ + "Not Found"@ =~= "HTTP/1.1 404 Not Found"@);
    assert("HTTP/1.1 "@ + decimal(405) + " "@ + "Method Not Allowed"@
        =~= "HTTP/1.1 405 Method Not Allowed"@);
    assert("HTTP/1.1 "@ + decimal(409) + " "@ + "Conflict"@ =~= "HTTP/1.1 409 Conflict"@);
    lemma_status_line(400, "Bad Request"@, kind, length, "HTTP/1.1 400 Bad Request"@);
    lemma_status_line(404, "Not Found"@, kind, length, "HTTP/1.1 404 Not Found"@);
    lemma_status_line(405, "Method Not Allowed"@, kind, length, "HTTP/1.1 405 Method Not Allowed"@);
    lemma_status_line(409, "Conflict"@, kind, length, "HTTP/1.1 409 Conflict"@);
}

/// A JSON response is sent as JSON, under the status line of its status.
pub proof fn json_responses_as_sent(value: JsonView)
    ensures
        sent(json_bytes(200, value), "HTTP/1.1 200 OK"@, "application/json"@, json_text(value)),
        sent(json_bytes(201, value), "HTTP/1.1 201 Created"@, "application/json"@, json_text(value)),
{
    reveal_strlit("HTTP/1.1 ");
    reveal_strlit(" ");
    reveal_strlit("OK");
    reveal_strlit("Created");
    reveal_strlit("HTTP/1.1 200 OK");
    reveal_strlit("HTTP/1.1 201 Created");
    lemma_three_digits(200);
    lemma_three_digits(201);
    assert("HTTP/1.1 "@ + decimal(200) + " "@ + "OK"@ =~= "HTTP/1.1 200 OK"@);
    assert("HTTP/1.1 "@ + decimal(201) + " "@ + "Created"@ =~= "HTTP/1.1 201 Created"@);
    let length = json_text(value).len();
    lemma_status_line(200, "OK"@, "application/json"@, length, "HTTP/1.1 200 OK"@);
    lemma_status_line(201, "Created"@, "application/json"@, length, "HTTP/1.1 201 Created"@);
}

/// A blob that was found is sent bare, to be cached for ever; one that was
/// not is answered 404.
pub proof fn blobs_as_sent(blob: Seq<u8>)
    ensures
        code_answer(Some(blob)) == encode_utf8(
            "HTTP/1.1 200 OK\r\nContent-Type: application/octet-stream\r\nContent-Length: "@
                + decimal(blob.len())
                + "\r\nCache-Control: public, max-age=31536000, immutable\r\nConnection: close\r\n\r\n"@,
        ) + blob,
        code_answer(None) == plain_response(404, "no blob under this address"@),
{
    reveal_strlit("HTTP/1.1 ");
    reveal_strlit(" ");
    reveal_strlit("OK");
    reveal_strlit("\r\nContent-Type: ");
    reveal_strlit("application/octet-stream");
    reveal_strlit("\r\nContent-Length: ");
    reveal_strlit("\r\n");
    reveal_strlit("Cache-Control: public, max-age=31536000, immutable\r\n");
    reveal_strlit("Connection: close\r\n\r\n");
    reveal_strlit("HTTP/1.1 200 OK\r\nContent-Type: application/octet-stream\r\nContent-Length: ");
    reveal_strlit(
        "\r\nCache-Control: public, max-age=31536000, immutable\r\nConnection: close\r\n\r\n",
    );
    lemma_three_digits(200);
    let front = "HTTP/1.1 "@ + decimal(200) + " "@ + "OK"@ + "\r\nContent-Type: "@
        + "application/octet-stream"@ + "\r\nContent-Length: "@;
    assert(front
        =~= "HTTP/1.1 200 OK\r\nContent-Type: application/octet-stream\r\nContent-Length: "@);
    let cache = "Cache-Control: public, max-age=31536000, immutable\r\n"@;
    let close = "Connection: close\r\n\r\n"@;
    let back = "\r\nCache-Control: public, max-age=31536000, immutable\r\nConnection: close\r\n\r\n"@;
    assert("\r\n"@ + cache + close =~= back);
    let length = decimal(blob.len());
    assert(front + length + "\r\n"@ + cache + close =~= front + length + ("\r\n"@ + cache + close));
}

}
