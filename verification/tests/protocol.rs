//! The wire contract.

use ciborium::Value as Item;
use prism::protocol::{Codec, Frame};
use serde_json::Value;

fn json(text: &str) -> Value {
    serde_json::from_str(text).unwrap()
}

#[test]
fn every_frame_shape_round_trips_through_both_codecs() {
    let frames = vec![
        Frame::new("echo", json(r#"{"msg": "hi"}"#)),
        Frame::new("echo", json("null")),
        Frame::new("order.created", json(r#"[1, 2, {"u": "a"}]"#)),
        Frame { ev: "ping".into(), args: Value::Null },
    ];
    for f in &frames {
        for codec in [Codec::Json, Codec::Cbor] {
            let back = codec.decode(&codec.encode(f)).expect("round trip");
            assert_eq!(&back, f, "{codec:?} round-trip of {f:?}");
        }
    }
}

#[test]
fn json_and_cbor_views_agree() {
    let f = Frame::new("x", json(r#"{"a": 1, "b": [true, "s"]}"#));
    let json_bytes = Codec::Json.encode(&f);
    let via_cbor: Frame = Codec::Cbor.decode(&Codec::Cbor.encode(&f)).unwrap();
    let via_json: Frame = Codec::Json.decode(&json_bytes).unwrap();
    assert_eq!(via_cbor, via_json);
}

#[test]
fn handshake_default_is_cbor() {
    assert_eq!(Codec::from_query(None), Codec::Cbor);
    assert_eq!(Codec::from_query(Some("binary")), Codec::Cbor);
    assert_eq!(Codec::from_query(Some("json")), Codec::Json);
}

#[test]
fn frames_are_written_as_objects_of_two_fields() {
    let f = Frame::new("ping", json(r#"{"n": 1}"#));
    assert_eq!(Codec::Json.encode(&f), br#"{"ev":"ping","args":{"n":1}}"#.to_vec());
    let mut cbor = vec![0xa2, 0x62];
    cbor.extend_from_slice(b"ev");
    cbor.push(0x64);
    cbor.extend_from_slice(b"ping");
    cbor.push(0x64);
    cbor.extend_from_slice(b"args");
    cbor.extend_from_slice(&[0xa1, 0x61, b'n', 0x01]);
    assert_eq!(Codec::Cbor.encode(&f), cbor);
}

#[test]
fn absent_payload_is_null() {
    let f = Codec::Json.decode(br#"{"ev":"ping"}"#).unwrap();
    assert_eq!(f, Frame::new("ping", Value::Null));
}

#[test]
fn unknown_fields_are_passed_over() {
    let f = Codec::Json.decode(br#"{"x":[1,2],"args":7,"ev":"e"}"#).unwrap();
    assert_eq!(f, Frame::new("e", json("7")));
}

#[test]
fn a_json_list_is_a_frame_too() {
    let f = Codec::Json.decode(br#"["e",{"k":"v"}]"#).unwrap();
    assert_eq!(f, Frame::new("e", json(r#"{"k":"v"}"#)));
    assert!(Codec::Json.decode(b"[]").is_err());
    assert!(Codec::Json.decode(br#"["e",1,2]"#).is_err());
    // a list of one text: 0x81 0x61 'e'
    assert!(Codec::Cbor.decode(&[0x81, 0x61, b'e']).is_err());
}

#[test]
fn what_is_no_frame_is_an_error_value() {
    for bytes in [
        &b"not json"[..],
        &br#"{"args":1}"#[..],
        &br#"{"ev":1}"#[..],
        &br#"{"ev":"a","ev":"b"}"#[..],
        &br#"{"ev":"a","args":1,"args":2}"#[..],
        &br#"{"ev":"a"} trailing"#[..],
        &b"7"[..],
    ] {
        let error = Codec::Json.decode(bytes).unwrap_err();
        assert!(error.to_string().starts_with("protocol error: "), "{}", error.to_string());
    }
    assert!(Codec::Cbor.decode(b"").is_err());
    assert_eq!(
        Codec::Json.decode(br#"{"args":1}"#).unwrap_err().to_string(),
        "protocol error: missing field `ev`"
    );
}

#[test]
fn items_are_read_as_frames() {
    let text = |s: &str| Item::Text(s.to_string());
    let item = Item::Map(vec![
        (Item::Tag(7, Box::new(text("ev"))), text("e")),
        (Item::Bytes(b"args".to_vec()), Item::Array(vec![Item::Bool(true), Item::Null])),
    ]);
    for codec in [Codec::Json, Codec::Cbor] {
        assert_eq!(codec.frame_of(&item).unwrap(), Frame::new("e", json("[true, null]")));
        assert!(codec.frame_of(&Item::Null).is_err());
        let numbered = Item::Map(vec![(Item::from(1), text("x")), (text("ev"), text("e"))]);
        assert!(codec.frame_of(&numbered).is_err());
    }
    let pair = Item::Array(vec![text("e"), Item::from(3)]);
    assert_eq!(Codec::Json.frame_of(&pair).unwrap(), Frame::new("e", json("3")));
    assert!(Codec::Cbor.frame_of(&pair).is_err());
}

#[test]
fn the_name_of_a_cbor_field_is_not_too_long() {
    for (n, good) in [(4096, true), (4097, false)] {
        let item = Item::Map(vec![
            (Item::Text("k".repeat(n)), Item::Null),
            (Item::Text("ev".to_string()), Item::Text("e".to_string())),
        ]);
        assert_eq!(Codec::Cbor.frame_of(&item).is_ok(), good);
        assert!(Codec::Json.frame_of(&item).is_ok());
    }
}

#[test]
fn wide_and_deep_payloads_round_trip() {
    let mut deep = String::new();
    for _ in 0..100 {
        deep.push('[');
    }
    for _ in 0..100 {
        deep.push(']');
    }
    let frames = vec![
        Frame::new("", json(&deep)),
        Frame::new("é ∀ \u{1F600}", json(r#"{"": "\u0000\"\\\n", "π": [true, false, null]}"#)),
        Frame::new("n", json("[0, 18446744073709551615, -9223372036854775808, -1]")),
    ];
    for f in &frames {
        for codec in [Codec::Json, Codec::Cbor] {
            assert_eq!(&codec.decode(&codec.encode(f)).unwrap(), f);
        }
    }
    let fraction = Frame::new("f", json("[1.5, -0.25, 1e300]"));
    assert_eq!(Codec::Cbor.decode(&Codec::Cbor.encode(&fraction)).unwrap(), fraction);
}
