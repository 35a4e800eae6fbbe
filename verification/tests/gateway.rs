//! The gateway: connections, identity, and what becomes of frames. The
//! tests play the part of the sockets and of the actors.

use prism::code_export::Head;
use prism::gateway::{
    handler_requires_auth, handshake, query_param, Arrival, Delivery, Gateway, Handshake, Inbound,
    Outcome, Routed, Step,
};
use prism::identity::{Device, Registry};
use prism::nodes::Posture;
use prism::protocol::{Codec, Frame};
use serde_json::Value;

fn json(text: &str) -> Value {
    serde_json::from_str(text).unwrap()
}

fn boot() -> Gateway {
    Gateway::new(Registry::open(Vec::new(), Vec::new(), Vec::new()), Posture::Open)
}

/// Connects, and checks the answer.
fn connect(gw: &mut Gateway, device: Option<u64>) -> (u64, u64, u64) {
    assert!(gw.can_connect());
    let (id, f) = gw.connect(device);
    assert_eq!(f.ev, "connected");
    (id, f.args["device_id"].as_u64().unwrap(), f.args["user_id"].as_u64().unwrap_or(0))
}

/// What an actor declares.
fn schema_of(ev: &str) -> Option<Value> {
    match ev {
        "echo_priv" => Some(json(r#"{"auth": {"echo_priv": "required"}}"#)),
        "echo_open" => Some(json(r#"{"auth": {"other": true}}"#)),
        _ => None,
    }
}

/// What an actor answers.
fn call(actor_type: &str, payload: Value) -> Outcome {
    match actor_type {
        "echo_steel" | "echo_open" => Outcome::Done(payload),
        "echo_sender" | "echo_priv" => Outcome::Done(payload["sender"].clone()),
        "cold" => Outcome::Pending,
        other => Outcome::Failed(format!("no such type: {other}")),
    }
}

/// Sends an event, and does whatever is to be done about it.
fn send(gw: &mut Gateway, id: u64, ev: &str, args: Value) -> Delivery {
    assert!(gw.can_enrol());
    let mut step = gw.dispatch(id, Frame::new(ev, args));
    loop {
        match step {
            Step::Deliver(delivery) => return delivery,
            Step::Inspect(inquiry) => {
                let schema = schema_of(&inquiry.frame.ev);
                step = gw.decide(inquiry, schema.as_ref());
            }
            Step::Invoke(c) => {
                assert_eq!(c.key, "ws");
                let outcome = call(&c.actor_type, c.payload);
                return gw.complete(c.id, &c.actor_type, outcome);
            }
        }
    }
}

/// The reply to an event, which goes to the sender alone.
fn reply(gw: &mut Gateway, id: u64, ev: &str, args: Value) -> Frame {
    let delivery = send(gw, id, ev, args);
    assert_eq!(delivery.to, vec![id]);
    delivery.frame
}

#[test]
fn query_parsing() {
    assert_eq!(query_param("protocol=json", "protocol"), Some("json"));
    assert_eq!(query_param("a=1&protocol=json", "protocol"), Some("json"));
    assert_eq!(query_param("a=1", "protocol"), None);
    assert_eq!(query_param("device=42&protocol=json", "device"), Some("42"));
}

#[test]
fn queries_are_read_pair_by_pair() {
    assert_eq!(query_param("", "a"), None);
    assert_eq!(query_param("a", "a"), None);
    assert_eq!(query_param("a=", "a"), Some(""));
    assert_eq!(query_param("a&&a=b=c&a=d", "a"), Some("b=c"));
    assert_eq!(query_param("é=∀&=x", "é"), Some("∀"));
    assert_eq!(query_param("é=∀&=x", ""), Some("x"));
}

#[test]
fn handshakes_are_read_off_the_query() {
    assert_eq!(handshake(""), Handshake { codec: Codec::Cbor, device: None });
    assert_eq!(
        handshake("protocol=json&device=7"),
        Handshake { codec: Codec::Json, device: Some(7) }
    );
    assert_eq!(handshake("protocol=JSON&device=x").codec, Codec::Cbor);
    assert_eq!(handshake("device=x").device, None);
    assert_eq!(handshake("device=").device, None);
    assert_eq!(handshake("device=18446744073709551615").device, Some(u64::MAX));
    assert_eq!(handshake("device=18446744073709551616").device, None);
    assert_eq!(handshake("device=-1").device, None);
}

#[test]
fn steel_echo_json() {
    echo_round_trip(Codec::Json, "echo_steel");
}

#[test]
fn steel_echo_cbor() {
    echo_round_trip(Codec::Cbor, "echo_steel");
}

/// One echo, from bytes to bytes.
fn echo_round_trip(codec: Codec, ev: &str) {
    let mut gw = boot();
    let (id, device, _) = connect(&mut gw, None);
    let mut payload = serde_json::Map::new();
    payload.insert("msg".to_string(), Value::from(format!("hello {ev}")));
    payload.insert("n".to_string(), Value::from(42));
    let payload = Value::Object(payload);
    let bytes = codec.encode(&Frame::new(ev, payload.clone()));
    let frame = match gw.inbound(id, codec, Inbound::Binary(bytes)) {
        Arrival::Event(frame) => frame,
        _ => panic!("a frame arrives"),
    };
    let sent = codec.encode(&reply(&mut gw, id, &frame.ev, frame.args));
    let reply = codec.decode(&sent).unwrap();
    assert_eq!(reply.ev, format!("{ev}.result"));
    assert_eq!(reply.args["args"], payload, "{ev} echo shape");
    assert!(reply.args["sender"]["device"].as_u64().unwrap() > 0);
    assert_eq!(reply.args["sender"]["device"].as_u64(), Some(device));
}

#[test]
fn broadcast_reaches_every_connection() {
    let mut gw = boot();
    let (a, _, _) = connect(&mut gw, None);
    let (b, _, _) = connect(&mut gw, None);
    let delivery = send(&mut gw, a, "broadcast", json(r#"{"hi": "all"}"#));
    assert_eq!(delivery.to, vec![a, b]);
    assert_eq!(delivery.frame, Frame::new("broadcast", json(r#"{"hi": "all"}"#)));
}

#[test]
fn unknown_type_is_error_value_not_close() {
    let mut gw = boot();
    let (id, _, _) = connect(&mut gw, None);
    let f = reply(&mut gw, id, "nope", json("{}"));
    assert_eq!(f.ev, "error");
    assert_eq!(f.args["ev"], "nope");
    // still alive: ping round-trips
    let f = reply(&mut gw, id, "ping", Value::Null);
    assert_eq!(f.ev, "ping.result");
    assert_eq!(f.args, json(r#"{"pong": true}"#));
}

#[test]
fn garbage_is_error_value_not_close() {
    let mut gw = boot();
    let (id, _, _) = connect(&mut gw, None);
    match gw.inbound(id, Codec::Json, Inbound::Binary(b"not json".to_vec())) {
        Arrival::Reply(delivery) => {
            assert_eq!(delivery.to, vec![id]);
            assert_eq!(delivery.frame.ev, "error");
            assert!(delivery.frame.args["message"].as_str().unwrap().contains("protocol error"));
        }
        _ => panic!("garbage is answered"),
    }
    match gw.inbound(id, Codec::Json, Inbound::Text(r#"{"ev":"ping"}"#.to_string())) {
        Arrival::Event(frame) => assert_eq!(frame, Frame::new("ping", Value::Null)),
        _ => panic!("a text message is a frame too"),
    }
    assert!(matches!(gw.inbound(id, Codec::Json, Inbound::Close), Arrival::Stop));
    assert!(matches!(gw.inbound(id, Codec::Json, Inbound::Other), Arrival::Skip));
    assert_eq!(reply(&mut gw, id, "ping", Value::Null).ev, "ping.result");
}

#[test]
fn signup_then_sender_sees_identity() {
    let mut gw = boot();
    let (id, device, user0) = connect(&mut gw, None);
    assert_eq!(user0, 0, "first connect is anonymous");
    assert!(device > 0);

    let f = reply(
        &mut gw,
        id,
        "signup",
        json(r#"{"username": "alice", "password": "***", "nickname": "Alice"}"#),
    );
    assert_eq!(f.ev, "signup.result");
    let uid = f.args["user_id"].as_u64().unwrap();
    assert!(uid > 0);

    let f = reply(&mut gw, id, "echo_sender", json(r#"{"q": 1}"#));
    assert_eq!(f.ev, "echo_sender.result");
    assert_eq!(f.args["device"], Value::from(device));
    assert_eq!(f.args["user"], Value::from(uid));
}

#[test]
fn reconnect_restores_binding() {
    let mut gw = boot();
    let (id, device, _) = connect(&mut gw, None);
    let f = reply(&mut gw, id, "signup", json(r#"{"username": "bob", "password": "***"}"#));
    let uid = f.args["user_id"].as_u64().unwrap();
    gw.disconnect(id);

    let (id2, device2, user2) = connect(&mut gw, Some(device));
    assert_eq!(device2, device, "the echoed id is kept");
    assert_eq!(user2, uid, "the binding restored without re-login");
    gw.disconnect(id2);

    // Unknown id: fresh row, anonymous (the guess gains nothing).
    let (_, device3, user3) = connect(&mut gw, Some(999_999));
    assert_ne!(device3, 999_999);
    assert_eq!(user3, 0);
}

#[test]
fn broadcast_auth_predicate() {
    let mut gw = boot();
    let (anon, _, _) = connect(&mut gw, None);
    let (auth, _, _) = connect(&mut gw, None);
    let f = reply(&mut gw, auth, "login", json(r#"{"username": "carol", "password": "***"}"#));
    // no such account yet → error value, still anonymous
    assert_eq!(f.ev, "error");
    let f = reply(&mut gw, auth, "signup", json(r#"{"username": "carol", "password": "***"}"#));
    assert_eq!(f.ev, "signup.result");

    let d = send(&mut gw, anon, "broadcast", json(r#"{"to": "auth", "n": 1}"#));
    // anon filtered itself out
    assert_eq!(d.to, vec![auth]);
    assert_eq!(d.frame.ev, "broadcast");
    assert_eq!(d.frame.args["n"], 1);

    let d = send(&mut gw, anon, "broadcast", json(r#"{"n": 2}"#));
    assert_eq!(d.to, vec![anon, auth]);
    assert_eq!(d.frame.ev, "broadcast");
}

#[test]
fn login_failure_is_indistinguishable_value() {
    let mut gw = boot();
    let (id, _, _) = connect(&mut gw, None);
    let f = reply(
        &mut gw,
        id,
        "signup",
        json(r#"{"username": "dave", "password": "correct-passphrase"}"#),
    );
    assert_eq!(f.ev, "signup.result");
    let f1 = reply(
        &mut gw,
        id,
        "login",
        json(r#"{"username": "dave", "password": "wrong-passphrase"}"#),
    );
    let f2 = reply(
        &mut gw,
        id,
        "login",
        json(r#"{"username": "ghost", "password": "wrong-passphrase"}"#),
    );
    assert_eq!(f1.ev, "error");
    assert_eq!(f1.args["message"], f2.args["message"], "enumeration-free");
    assert_eq!(f1.args, json(r#"{"ev": "login", "message": "invalid credentials"}"#));
    assert_eq!(reply(&mut gw, id, "ping", Value::Null).ev, "ping.result", "still usable");
    let f = reply(
        &mut gw,
        id,
        "login",
        json(r#"{"username": "dave", "password": "correct-passphrase"}"#),
    );
    assert_eq!(f, Frame::new("login.result", json(r#"{"user_id": 1}"#)));
}

#[test]
fn username_taken() {
    let mut gw = boot();
    let (id, _, _) = connect(&mut gw, None);
    for expect in ["signup.result", "error"] {
        let f = reply(&mut gw, id, "signup", json(r#"{"username": "eve", "password": "***"}"#));
        assert_eq!(f.ev, expect);
    }
    assert_eq!(reply(&mut gw, id, "ping", Value::Null).ev, "ping.result", "still alive");
}

#[test]
fn plain_echo_wraps_args_in_envelope() {
    let mut gw = boot();
    let (id, device, _) = connect(&mut gw, None);
    let f = reply(&mut gw, id, "echo_steel", json(r#"{"msg": "hi"}"#));
    assert_eq!(f.ev, "echo_steel.result");
    assert_eq!(f.args["args"], json(r#"{"msg": "hi"}"#));
    assert_eq!(f.args["sender"]["device"], Value::from(device));
    assert_eq!(f.args["sender"]["user"], Value::Null);
}

#[test]
fn declared_auth_event_requires_a_bound_user() {
    let mut gw = boot();
    let (id, _, _) = connect(&mut gw, None);

    // Anonymous: blocked with the error value, the declared event
    // never runs.
    let f = reply(&mut gw, id, "echo_priv", json(r#"{"secret": 1}"#));
    assert_eq!(f.ev, "error");
    assert_eq!(f.args["ev"], "echo_priv");
    assert_eq!(f.args["message"], "authentication required");

    // A public event on the same connection still works (per-event,
    // not a blanket gate).
    assert_eq!(reply(&mut gw, id, "echo_steel", json(r#"{"msg": "hi"}"#)).ev, "echo_steel.result");
    assert_eq!(reply(&mut gw, id, "echo_open", Value::Null).ev, "echo_open.result");

    // After signup the declared handler answers through the same socket.
    let f = reply(&mut gw, id, "signup", json(r#"{"username": "frank", "password": "***"}"#));
    let uid = f.args["user_id"].as_u64().unwrap();
    let f = reply(&mut gw, id, "echo_priv", json(r#"{"secret": 1}"#));
    assert_eq!(f.ev, "echo_priv.result");
    assert_eq!(f.args["user"], Value::from(uid));
}

#[test]
fn presence_in_the_auth_block_is_the_rule() {
    let schema = json(r#"{"auth": {"a": "required", "b": false, "c": null}}"#);
    for ev in ["a", "b", "c"] {
        assert!(handler_requires_auth(Some(&schema), ev));
    }
    assert!(!handler_requires_auth(Some(&schema), "d"));
    assert!(!handler_requires_auth(Some(&json(r#"{"auth": ["a"]}"#)), "a"));
    assert!(!handler_requires_auth(Some(&json("{}")), "a"));
    assert!(!handler_requires_auth(None, "a"));
}

#[test]
fn the_sender_is_the_gateways_word() {
    let mut gw = boot();
    let (id, device, _) = connect(&mut gw, None);
    let f = reply(&mut gw, id, "echo_sender", json(r#"{"sender": {"device": 99, "user": 1}}"#));
    assert_eq!(f.args["device"], Value::from(device));
    assert_eq!(f.args["user"], Value::Null);
}

#[test]
fn a_cold_target_is_an_error_value() {
    let mut gw = boot();
    let (id, _, _) = connect(&mut gw, None);
    assert_eq!(
        reply(&mut gw, id, "cold", Value::Null),
        Frame::new(
            "error",
            json(r#"{"ev": "cold", "message": "cold call not supported on the echo plane"}"#)
        )
    );
}

#[test]
fn what_is_gone_is_not_reached() {
    let mut gw = boot();
    let (a, device, _) = connect(&mut gw, None);
    let (b, _, _) = connect(&mut gw, None);
    let (c, _, _) = connect(&mut gw, None);
    assert_eq!((a, b, c), (1, 2, 3));
    assert_eq!(gw.identities(a), (device, 0));
    gw.disconnect(a);
    assert_eq!(gw.identities(a), (0, 0));
    assert!(send(&mut gw, a, "ping", Value::Null).to.is_empty());
    assert_eq!(send(&mut gw, b, "broadcast", Value::Null).to, vec![b, c]);
    gw.prune(&vec![c, 77]);
    assert_eq!(send(&mut gw, b, "broadcast", Value::Null).to, vec![b]);
    let (d, _, _) = connect(&mut gw, None);
    assert_eq!(d, 4, "connection ids are not reused");
}

#[test]
fn an_anonymous_device_is_kept() {
    let mut gw = boot();
    let (id, device, _) = connect(&mut gw, None);
    gw.disconnect(id);
    gw.registry().take_writes();
    let (_, again, user) = connect(&mut gw, Some(device));
    assert_eq!(again, device);
    assert_eq!(user, 0);
    assert!(gw.registry().take_writes().devices.is_empty(), "no row is written");
    let (_, fresh, _) = connect(&mut gw, Some(device + 7));
    assert_eq!(fresh, device + 1);
}

#[test]
fn every_connection_has_a_device_with_a_row() {
    let mut gw = boot();
    let (a, da, _) = connect(&mut gw, None);
    let (b, db, _) = connect(&mut gw, Some(da));
    reply(&mut gw, a, "signup", json(r#"{"username": "ann", "password": "pw"}"#));
    reply(&mut gw, b, "login", json(r#"{"username": "ann", "password": "pw"}"#));
    gw.disconnect(a);
    for d in [da, db] {
        assert_eq!(gw.registry().device(d).map(|row| row.user_id), Some(1));
    }
}

#[test]
fn signup_writes_are_handed_to_the_store() {
    let mut gw = boot();
    let (id, device, _) = connect(&mut gw, None);
    reply(&mut gw, id, "signup", json(r#"{"username": "gil", "password": "pw"}"#));
    let w = gw.registry().take_writes();
    assert_eq!(w.accounts.len(), 1);
    assert_eq!(w.devices.last(), Some(&Device { id: device, user_id: 1, global: 0 }));
    // missing fields read as empty, and are refused
    let f = reply(&mut gw, id, "signup", json(r#"{"username": 7}"#));
    assert_eq!(f.args["message"], "username and password are required");
    assert!(gw.registry().take_writes().accounts.is_empty());
}

#[test]
fn ws_and_fallthrough_coexist() {
    let mut gw = boot();
    let head = |method: &str, path: &str| Head {
        bytes: Vec::new(),
        path: path.to_string(),
        method: method.to_string(),
        body: Vec::new(),
    };
    assert!(gw.can_list_more());
    assert!(matches!(gw.serve_http(&head("GET", "/ws")), Routed::Upgrade));
    assert!(matches!(gw.serve_http(&head("GET", "/unknown")), Routed::Upgrade));
    assert!(matches!(gw.serve_http(&head("GET", "/administrator")), Routed::Upgrade));
    match gw.serve_http(&head("GET", "/admin/nodes")) {
        Routed::Respond(bytes) => assert!(bytes.ends_with(b"[]")),
        _ => panic!("the admin surface answers"),
    }
    match gw.serve_http(&head("GET", &format!("/code/{}", "00".repeat(32)))) {
        Routed::Lookup(sha) => assert_eq!(sha, [0u8; 32]),
        _ => panic!("the export looks up"),
    }
    let mut post = head("POST", "/admin/nodes");
    post.body = br#"{"alias":"a","public_key":"K"}"#.to_vec();
    match gw.serve_http_at(&post, 5) {
        Routed::Respond(bytes) => assert!(bytes.starts_with(b"HTTP/1.1 201")),
        _ => panic!("the admin surface answers"),
    }
    assert_eq!(gw.registry().nodes().list()[0].created_at, 5);
    assert_eq!(gw.posture(), Posture::Open);
}
