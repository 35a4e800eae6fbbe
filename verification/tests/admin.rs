//! The admin surface.

use prism::admin::{
    json_response, optional_key, parse_pair, read_key, read_pair, row_json, serve_admin,
    serve_admin_at,
};
use prism::code_export::{content_length, find_head_end};
use prism::nodes::{Node, NodeStore, Verdict};
use serde_json::Value;

fn store() -> NodeStore {
    NodeStore::new(Vec::new())
}

fn json(text: &str) -> Value {
    serde_json::from_str(text).unwrap()
}

fn raw(nodes: &mut NodeStore, method: &str, path: &str, body: Option<&str>) -> String {
    let bytes = serve_admin(nodes, method, path, body.unwrap_or("").as_bytes())
        .expect("a path under the prefix");
    String::from_utf8(bytes).unwrap()
}

fn request(
    nodes: &mut NodeStore,
    method: &str,
    path: &str,
    body: Option<&str>,
) -> (u16, String, Value) {
    let resp = raw(nodes, method, path, body);
    let status: u16 = resp[9..12].parse().unwrap();
    let (head_part, body_part) = resp.split_once("\r\n\r\n").unwrap();
    let content_type = head_part
        .lines()
        .find(|l| l.to_ascii_lowercase().starts_with("content-type"))
        .unwrap_or("")
        .to_string();
    let json = serde_json::from_str(body_part).unwrap_or(Value::Null);
    (status, content_type, json)
}

#[test]
fn approval_lifecycle_over_http() {
    let mut nodes = store();

    // POST /admin/nodes → 201 + the pending row.
    let (status, _, created) = request(
        &mut nodes,
        "POST",
        "/admin/nodes",
        Some(r#"{"alias": "home-pc", "public_key": "AAA="}"#),
    );
    assert_eq!(status, 201);
    assert_eq!(created["status"], "pending");
    assert!(created["created_at"].as_u64().unwrap() > 0);

    // GET /admin/nodes → the listing, application/json.
    let (status, ctype, rows) = request(&mut nodes, "GET", "/admin/nodes", None);
    assert_eq!(status, 200);
    assert!(ctype.contains("application/json"), "{ctype}");
    assert_eq!(rows.as_array().unwrap().len(), 1);
    assert_eq!(rows[0]["alias"], "home-pc");

    // Approve with no body (unique pending).
    let (status, _, approved) = request(&mut nodes, "POST", "/admin/nodes/home-pc/approve", None);
    assert_eq!(status, 200);
    assert_eq!(approved["status"], "approved");
    // The handshake seam sees it: registered for the key, conflict for
    // another (the record is the SAME table the approval wrote).
    assert_eq!(nodes.verdict("home-pc", "AAA="), Verdict::Registered);
    assert_eq!(nodes.verdict("home-pc", "BBB="), Verdict::Conflict);

    // Rotation: enroll + approve a second key → the first demotes.
    request(
        &mut nodes,
        "POST",
        "/admin/nodes",
        Some(r#"{"alias": "home-pc", "public_key": "BBB="}"#),
    );
    let (status, _, _) = request(
        &mut nodes,
        "POST",
        "/admin/nodes/home-pc/approve",
        Some(r#"{"public_key": "BBB="}"#),
    );
    assert_eq!(status, 200);
    assert_eq!(nodes.verdict("home-pc", "BBB="), Verdict::Registered);
    assert_eq!(nodes.verdict("home-pc", "AAA="), Verdict::Conflict);

    // Revoke the alias → live keys fall to pending-verdict (revoked),
    // a fresh claim queues again — never self-service.
    let (status, _, out) = request(&mut nodes, "DELETE", "/admin/nodes/home-pc", None);
    assert_eq!(status, 200);
    assert!(out["revoked"].as_u64().unwrap() >= 1);
    let (status, _, rows) = request(&mut nodes, "GET", "/admin/nodes", None);
    assert_eq!(status, 200);
    assert!(
        rows.as_array().unwrap().iter().all(|r| r["status"] == "revoked"),
        "tombstones survive the revoke: {rows}"
    );
}

#[test]
fn failures_are_the_machines_answer() {
    let mut nodes = store();

    let (status, _, _) = request(&mut nodes, "POST", "/admin/nodes", Some(r#"{"alias": "x"}"#));
    assert_eq!(status, 400, "missing public_key");

    request(&mut nodes, "POST", "/admin/nodes", Some(r#"{"alias": "amb", "public_key": "K1"}"#));
    request(&mut nodes, "POST", "/admin/nodes", Some(r#"{"alias": "amb", "public_key": "K2"}"#));
    let resp = raw(&mut nodes, "POST", "/admin/nodes/amb/approve", None);
    assert!(resp.starts_with("HTTP/1.1 409"), "{resp}");
    assert!(resp.contains("no unique pending key"), "the reason travels for the human: {resp}");

    let (status, _, _) = request(&mut nodes, "POST", "/admin/nodes/ghost/approve", None);
    assert_eq!(status, 409);
    let (status, _, _) = request(&mut nodes, "GET", "/admin/nodes/ghost", None);
    assert_eq!(status, 404);
}

#[test]
fn other_paths_are_left_alone() {
    let mut nodes = store();
    assert_eq!(serve_admin(&mut nodes, "GET", "/ws", b""), None);
    assert_eq!(serve_admin(&mut nodes, "GET", "/adm", b""), None);
    assert_eq!(serve_admin(&mut nodes, "GET", "/administrator", b""), None);
    assert_eq!(serve_admin(&mut nodes, "POST", "/adminx/nodes", b"{}"), None);
    for (method, path) in [
        ("GET", "/admin"),
        ("GET", "/admin/"),
        ("PUT", "/admin/nodes"),
        ("DELETE", "/admin/nodes"),
        ("DELETE", "/admin/nodes/"),
        ("DELETE", "/admin/nodes/a/b"),
        ("POST", "/admin/nodes/approve"),
        ("POST", "/admin/nodes/a/revoke"),
    ] {
        assert_eq!(
            raw(&mut nodes, method, path, None),
            "HTTP/1.1 404 Not Found\r\nContent-Type: text/plain; charset=utf-8\r\n\
             Content-Length: 19\r\nConnection: close\r\n\r\nunknown admin route",
            "{method} {path}"
        );
    }
    assert!(nodes.list().is_empty());
}

#[test]
fn a_created_record_is_answered_in_full() {
    let mut nodes = store();
    let bytes = serve_admin_at(
        &mut nodes,
        "POST",
        "/admin/nodes",
        br#"{"public_key":"K","alias":"a"}"#,
        1234,
    )
    .unwrap();
    assert_eq!(
        String::from_utf8(bytes).unwrap(),
        "HTTP/1.1 201 Created\r\nContent-Type: application/json\r\nContent-Length: 67\r\n\
         Connection: close\r\n\r\n\
         {\"alias\":\"a\",\"created_at\":1234,\"public_key\":\"K\",\"status\":\"pending\"}"
    );
}

#[test]
fn a_created_record_is_listed_last() {
    let mut nodes = store();
    for (i, alias) in ["z", "a", "m"].iter().enumerate() {
        let body = format!("{{\"alias\":\"{alias}\",\"public_key\":\"K\"}}");
        let bytes =
            serve_admin_at(&mut nodes, "POST", "/admin/nodes", body.as_bytes(), i as u64).unwrap();
        assert!(bytes.starts_with(b"HTTP/1.1 201 Created"));
        let before = nodes.list();
        let (_, _, rows) = request(&mut nodes, "GET", "/admin/nodes", None);
        let rows = rows.as_array().unwrap().clone();
        assert_eq!(rows.len(), i + 1);
        assert_eq!(rows[i]["alias"], *alias);
        assert_eq!(rows[i].as_object().unwrap().len(), 4);
        assert_eq!(rows[0]["alias"], "z");
        assert_eq!(nodes.list(), before);
    }
}

#[test]
fn bodies_are_held_to_their_shape() {
    assert_eq!(
        parse_pair(br#"{"alias":"a","public_key":"k"}"#),
        Ok(("a".to_string(), "k".to_string()))
    );
    assert_eq!(parse_pair(br#"{"public_key":"k"}"#), Err("`alias` is required".to_string()));
    assert_eq!(
        parse_pair(br#"{"alias":"a","public_key":""}"#),
        Err("`public_key` is required".to_string())
    );
    assert!(parse_pair(b"").unwrap_err().starts_with("body must be JSON: "));
    assert_eq!(optional_key(b""), Ok(None));
    assert_eq!(optional_key(b"{}"), Ok(None));
    assert_eq!(optional_key(b"[1]"), Ok(None));
    assert_eq!(optional_key(br#"{"public_key":"k"}"#), Ok(Some("k".to_string())));
    assert_eq!(
        optional_key(br#"{"public_key":null}"#),
        Err("`public_key` must be a non-empty string".to_string())
    );
    assert!(optional_key(b"{").unwrap_err().starts_with("body must be JSON: "));
    assert_eq!(read_pair(&json("7")), Err("`alias` is required".to_string()));
    assert_eq!(read_key(&json(r#"{"public_key":""}"#)).is_err(), true);
}

#[test]
fn a_malformed_key_is_refused_before_the_registry_is_asked() {
    let mut nodes = store();
    nodes.create_at("a", "K", 1).unwrap();
    for (method, path) in [("POST", "/admin/nodes/a/approve"), ("DELETE", "/admin/nodes/a")] {
        let resp = raw(&mut nodes, method, path, Some(r#"{"public_key": 1}"#));
        assert!(resp.starts_with("HTTP/1.1 400 Bad Request"), "{resp}");
    }
    assert_eq!(nodes.list()[0].status, "pending");
    let resp = raw(&mut nodes, "DELETE", "/admin/nodes/b", None);
    assert!(resp.ends_with("no live record for `b`"), "{resp}");
}

#[test]
fn a_json_answer_is_cut_where_its_value_begins() {
    for value in [json("[]"), json(r#""a\r\n\r\nContent-Length: 9\r\n""#), json(r#"{"é":"∀"}"#)] {
        let r = json_response(200, &value);
        let p = find_head_end(&r).unwrap();
        assert_eq!(r[p..].to_vec(), serde_json::to_vec(&value).unwrap());
        assert_eq!(content_length(&String::from_utf8(r.clone()).unwrap()), r.len() - p);
    }
}

#[test]
fn rows_and_responses_as_json() {
    let n = Node {
        id: 3,
        alias: "a".to_string(),
        public_key: "k".to_string(),
        status: "approved".to_string(),
        created_at: 9,
        global: 0,
    };
    assert_eq!(
        row_json(&n),
        json(r#"{"alias":"a","public_key":"k","status":"approved","created_at":9}"#)
    );
    let bytes = json_response(405, &json("[true]"));
    assert_eq!(
        String::from_utf8(bytes).unwrap(),
        "HTTP/1.1 405 OK\r\nContent-Type: application/json\r\nContent-Length: 6\r\n\
         Connection: close\r\n\r\n[true]"
    );
}
