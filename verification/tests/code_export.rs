//! The raw HTTP side: heads, addresses and plain responses.

use prism::code_export::{
    code_response, content_length, find_head_end, parse_sha, plain, request_line,
    serve_code_export, CodeStep, Head, HeadReader, ReadStep, Replay,
};

fn head(method: &str, path: &str) -> Head {
    Head { bytes: Vec::new(), path: path.to_string(), method: method.to_string(), body: Vec::new() }
}

fn text(bytes: &[u8]) -> String {
    String::from_utf8_lossy(bytes).into_owned()
}

/// What the export answers when the store holds nothing.
fn answer(method: &str, path: &str) -> Option<String> {
    match serve_code_export(&head(method, path)) {
        CodeStep::NotMine => None,
        CodeStep::Respond(bytes) => Some(text(&bytes)),
        CodeStep::Lookup(_) => Some(text(&code_response(None))),
    }
}

#[test]
fn sha_parser_is_strict() {
    let good = "a".repeat(64);
    assert!(parse_sha(&good).is_some());
    assert!(parse_sha(&"a".repeat(63)).is_none());
    assert!(parse_sha(&"a".repeat(65)).is_none());
    assert!(parse_sha(&format!("{}z", "a".repeat(63))).is_none());
    // uppercase hex is a valid digest form
    assert!(parse_sha(&"AB".repeat(32)).is_some());
}

#[test]
fn head_end_scan() {
    assert_eq!(find_head_end(b"GET /x HTTP/1.1\r\n\r\nrest"), Some(19));
    assert_eq!(find_head_end(b"GET /x\r\n"), None);
}

#[test]
fn head_end_is_the_first_of_several() {
    assert_eq!(find_head_end(b"\r\n\r\n\r\n\r\n"), Some(4));
    assert_eq!(find_head_end(b"a\r\n\r\nb\r\n\r\n"), Some(5));
    assert_eq!(find_head_end(b"a\r\n\r\n"), Some(5), "what follows does not matter");
    assert_eq!(find_head_end(b"\r\n\r"), None);
    assert_eq!(find_head_end(b""), None);
}

#[test]
fn digits_spell_the_digest() {
    let mut hex = String::new();
    let mut sha = [0u8; 32];
    for i in 0..32u8 {
        sha[i as usize] = i * 8 + 7;
        hex.push_str(&format!("{:02x}", i * 8 + 7));
    }
    assert_eq!(parse_sha(&hex), Some(sha));
    assert_eq!(parse_sha(&hex.to_uppercase()), Some(sha));
    // as many bytes, but not as many digits
    assert!(parse_sha(&format!("é{}", "0".repeat(62))).is_none());
}

#[test]
fn unknown_hash_is_404() {
    let resp = answer("GET", &format!("/code/{}", "0".repeat(64))).unwrap();
    assert!(resp.starts_with("HTTP/1.1 404"), "{resp}");
    assert_eq!(
        resp,
        "HTTP/1.1 404 Not Found\r\nContent-Type: text/plain; charset=utf-8\r\n\
         Content-Length: 26\r\nConnection: close\r\n\r\nno blob under this address"
    );
}

#[test]
fn malformed_address_is_400() {
    for path in ["/code/deadbeef", "/code/zzzzzzzzzzzzzzzzzzzzzzzzzzzzzzzzzzzzzzzzzzzzzzzzzzzzzzzzzzzzzzzz"] {
        let resp = answer("GET", path).unwrap();
        assert!(resp.starts_with("HTTP/1.1 400"), "{path} → {resp}");
    }
}

#[test]
fn export_path_never_upgrades() {
    let resp = answer("GET", "/code/upgrade").unwrap();
    assert!(resp.starts_with("HTTP/1.1 400"), "{resp}");
    assert!(!resp.contains("101"), "must not upgrade");
}

#[test]
fn code_export_serves_registered_source() {
    let source = "(define (echo_steel args) args)";
    let path = format!("/code/{}", "0a".repeat(32));
    match serve_code_export(&head("GET", &path)) {
        CodeStep::Lookup(sha) => assert_eq!(sha, [10u8; 32]),
        _ => panic!("a well-formed address is looked up"),
    }
    let resp = text(&code_response(Some(source.as_bytes().to_vec())));
    assert!(resp.starts_with("HTTP/1.1 200 OK"), "{resp}");
    assert!(
        resp.contains("Cache-Control: public, max-age=31536000, immutable"),
        "{resp}"
    );
    let body = resp.split("\r\n\r\n").nth(1).expect("head/body split");
    assert_eq!(body, source, "served bytes differ from the registered source");
}

#[test]
fn the_export_takes_get_only_and_leaves_other_routes_alone() {
    let address = format!("/code/{}", "0".repeat(64));
    assert!(answer("POST", &address).unwrap().starts_with("HTTP/1.1 405 Method Not Allowed"));
    assert!(answer("POST", "/code/x").unwrap().starts_with("HTTP/1.1 400"));
    assert!(answer("GET", "/ws").is_none());
    assert!(answer("GET", "/code").is_none());
}

#[test]
fn export_response_in_full() {
    assert_eq!(
        code_response(Some(vec![0, 255, 10])),
        [
            &b"HTTP/1.1 200 OK\r\nContent-Type: application/octet-stream\r\nContent-Length: 3\r\nCache-Control: public, max-age=31536000, immutable\r\nConnection: close\r\n\r\n"[..],
            &[0, 255, 10][..],
        ]
        .concat()
    );
}

#[test]
fn plain_counts_bytes_not_characters() {
    let resp = text(&plain(409, "é"));
    assert_eq!(
        resp,
        "HTTP/1.1 409 Conflict\r\nContent-Type: text/plain; charset=utf-8\r\n\
         Content-Length: 2\r\nConnection: close\r\n\r\né"
    );
    assert!(text(&plain(201, "")).starts_with("HTTP/1.1 201 OK\r\n"));
}

#[test]
fn announced_length_is_found() {
    assert_eq!(content_length("POST / HTTP/1.1\r\nHost: x\r\ncontent-LENGTH:  12 \r\n\r\n"), 12);
    assert_eq!(content_length("POST / HTTP/1.1\r\nHost: x\r\n\r\n"), 0);
    assert_eq!(content_length("Content-Length: 5"), 0, "the request line does not count");
    assert_eq!(content_length("x\nContent-Length: no\nContent-Length: +7\n"), 7);
    assert_eq!(content_length("x\nContent-Length: 99999999999999999999999\n"), 0);
    assert_eq!(content_length(""), 0);
}

#[test]
fn request_lines_are_cut_into_words() {
    assert_eq!(
        request_line("GET  /a/b?x=1?y HTTP/1.1\r\nHost: x\r\n"),
        ("GET".to_string(), "/a/b".to_string())
    );
    assert_eq!(request_line("GET"), ("GET".to_string(), String::new()));
    assert_eq!(request_line(""), (String::new(), String::new()));
}

#[test]
fn a_request_is_read_over_several_chunks() {
    let mut reader = HeadReader::new();
    let sent = b"POST /admin/nodes?x HTTP/1.1\r\nContent-Length: 10\r\n\r\n0123456789";
    let mut parts = sent.chunks(9).peekable();
    loop {
        let part = parts.next().expect("the request completes");
        match reader.feed(part) {
            ReadStep::More => assert!(parts.peek().is_some()),
            ReadStep::Abort => panic!("a good request is not given up"),
            ReadStep::Done(head) => {
                assert_eq!(head.method, "POST");
                assert_eq!(head.path, "/admin/nodes");
                assert!(!head.is_get());
                assert_eq!(head.body, b"0123456789".to_vec());
                assert_eq!([head.bytes, head.body].concat(), sent.to_vec());
                assert!(parts.peek().is_none());
                return;
            }
        }
    }
}

#[test]
fn bytes_that_are_no_text_do_not_stop_a_request() {
    let mut reader = HeadReader::new();
    match reader.feed(b"GET /\xff HTTP/1.1\r\n\r\n") {
        ReadStep::Done(head) => {
            assert!(head.is_get());
            assert_eq!(head.path, "/\u{fffd}");
            assert_eq!(head.bytes, b"GET /\xff HTTP/1.1\r\n\r\n".to_vec());
        }
        _ => panic!("the head is complete"),
    }
}

#[test]
fn a_request_is_given_up_at_the_end_of_the_stream_and_beyond_the_bound() {
    let mut reader = HeadReader::new();
    assert!(matches!(reader.feed(b"GET /"), ReadStep::More));
    assert!(matches!(reader.feed(b""), ReadStep::Abort));
    assert!(matches!(reader.feed(b"\r\n\r\n"), ReadStep::Abort));

    let mut reader = HeadReader::new();
    assert!(matches!(reader.feed(&vec![b'a'; 32768]), ReadStep::More));
    assert!(matches!(reader.feed(b"a"), ReadStep::Abort));

    let mut reader = HeadReader::new();
    assert!(matches!(reader.feed(b"POST / x\r\nContent-Length: 40000\r\n\r\n"), ReadStep::More));
    assert!(matches!(reader.feed(&vec![b'a'; 32768]), ReadStep::More));
    assert!(matches!(reader.feed(b"a"), ReadStep::Abort));

    // the read that crosses the bound may complete the body
    let mut reader = HeadReader::new();
    assert!(matches!(reader.feed(b"POST / x\r\nContent-Length: 32769\r\n\r\n"), ReadStep::More));
    assert!(matches!(reader.feed(&vec![b'a'; 32768]), ReadStep::More));
    assert!(matches!(reader.feed(b"a"), ReadStep::Done(_)));
}

#[test]
fn only_the_head_announces_a_length() {
    let mut reader = HeadReader::new();
    match reader.feed(b"POST / x\r\nHost: y\r\n\r\na\r\nContent-Length: 500\r\n") {
        ReadStep::Done(head) => assert_eq!(head.body, b"a\r\nContent-Length: 500\r\n".to_vec()),
        _ => panic!("no length is announced"),
    }
}

#[test]
fn a_head_beyond_the_bound_is_given_up_even_when_it_is_complete() {
    let mut long = b"GET / HTTP/1.1\r\nX: ".to_vec();
    long.resize(32768 - 4, b'a');
    long.extend_from_slice(b"\r\n\r\n");
    let mut reader = HeadReader::new();
    match reader.feed(&long) {
        ReadStep::Done(head) => assert_eq!(head.bytes.len(), 32768),
        _ => panic!("a head of the bound is read"),
    }
    long.insert(20, b'a');
    assert!(matches!(HeadReader::new().feed(&long), ReadStep::Abort));
    let mut reader = HeadReader::new();
    for part in long[..32000].chunks(1024) {
        assert!(matches!(reader.feed(part), ReadStep::More));
    }
    assert!(matches!(reader.feed(&long[32000..]), ReadStep::Abort));
}

#[test]
fn a_read_that_cuts_a_character_does_not_hurt_the_head() {
    let mut reader = HeadReader::new();
    let sent = "POST /é HTTP/1.1\r\nContent-Length: 2\r\n\r\né".as_bytes();
    assert!(matches!(reader.feed(&sent[..sent.len() - 1]), ReadStep::More));
    match reader.feed(&sent[sent.len() - 1..]) {
        ReadStep::Done(head) => {
            assert_eq!(head.path, "/é");
            assert_eq!(head.body, "é".as_bytes().to_vec());
        }
        _ => panic!("the body is complete"),
    }
}

#[test]
fn answers_are_cut_where_their_bodies_begin() {
    for msg in ["", "no blob", "a\r\n\r\nb", "Content-Length: 9\r\n\r\né∀"] {
        for status in [200, 400, 404, 405, 409, 65535] {
            let r = plain(status, msg);
            let p = find_head_end(&r).unwrap();
            assert_eq!(&r[p..], msg.as_bytes());
            assert_eq!(content_length(&text(&r)), msg.len());
        }
    }
    for blob in [vec![], b"\r\n\r\n".to_vec(), vec![255, 254, 13, 10, 13, 10, 0]] {
        let r = code_response(Some(blob.clone()));
        let p = find_head_end(&r).unwrap();
        assert_eq!(r[p..].to_vec(), blob);
        assert_eq!(content_length(&text(&r)), blob.len());
    }
}

#[test]
fn the_head_is_replayed_before_the_stream() {
    let mut replay = Replay::new(b"GET /ws".to_vec());
    assert_eq!(replay.take(3), Some(b"GET".to_vec()));
    assert_eq!(replay.take(0), Some(Vec::new()));
    assert_eq!(replay.take(100), Some(b" /ws".to_vec()));
    assert_eq!(replay.take(100), None);
}
