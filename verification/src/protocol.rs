//! The wire contract of the connection plane.
//!
//! One frame shape, one field `ev`, used in both directions: the protocol
//! does not encode direction, so dispatch cannot branch on it.
//!
//! Two encodings over one model: CBOR (the default) and JSON (the debug
//! path, `?protocol=json` at the handshake), fixed for the lifetime of a
//! connection. Both are read through the same item tree and by the same
//! rules, so their field sets cannot drift apart.

use crate::json::{
    fits, holds_two, item_from_cbor, item_from_json, item_json, item_view, json_from_item,
    json_view, null, of_text, parts, to_cbor, to_json, ItemView, JsonView, Parts,
};
use crate::json::{
    cbor_object, cbor_read_item, json_object, json_read_item, parts_of, CLOSE, COLON, COMMA, OPEN,
    PAIR,
};
use crate::text::same;
use vstd::prelude::*;
use vstd::utf8::encode_utf8;

verus! {

/// The one wire frame. `args` is the event payload, always present (null
/// is the empty payload).
#[derive(Debug, PartialEq)]
pub struct Frame {
    pub ev: String,
    pub args: serde_json::Value,
}

/// A frame by what it holds.
pub struct FrameView {
    pub ev: Seq<char>,
    pub args: JsonView,
}

impl View for Frame {
    type V = FrameView;

    open spec fn view(&self) -> FrameView {
        FrameView { ev: self.ev@, args: json_view(self.args) }
    }
}

impl Frame {
    pub fn new(ev: &str, args: serde_json::Value) -> (frame: Self)
        ensures
            frame.ev@ == ev@,
            frame.args == args,
            frame@ == (FrameView { ev: ev@, args: json_view(args) }),
    {
        Frame { ev: ev.to_string(), args }
    }
}

impl Clone for Frame {
    fn clone(&self) -> (copy: Self)
        ensures
            copy@ == self@,
    {
        Frame { ev: self.ev.clone(), args: self.args.clone() }
    }
}

/// The codec a connection fixed at handshake.
#[derive(Debug, Clone, Copy, PartialEq, Eq, Structural)]
pub enum Codec {
    Json,
    Cbor,
}

/// Why bytes are no frame.
#[derive(Debug)]
pub struct ProtocolError(pub String);

impl ProtocolError {
    /// The text shown to a client.
    pub fn to_string(&self) -> (text: String)
        ensures
            text@ == "protocol error: "@ + self.0@,
    {
        let mut text = "protocol error: ".to_string();
        text.append(self.0.as_str());
        text
    }
}

/// An item without the tags around it.
pub open spec fn untagged(item: ItemView) -> ItemView
    decreases item,
{
    match item {
        ItemView::Tagged(_, inner) => untagged(*inner),
        _ => item,
    }
}

/// The item is the name of a field, as text or as its bytes.
pub open spec fn names(item: ItemView, field: Seq<char>) -> bool {
    untagged(item) == ItemView::Text(field) || untagged(item) == ItemView::Bytes(encode_utf8(field))
}

/// The longest name of a field that the CBOR reader takes, in bytes.
pub const LONGEST_NAME: usize = 4096;

/// The item can be the name of a field: a text or bytes, in CBOR not too
/// long.
pub open spec fn can_name(codec: Codec, item: ItemView) -> bool {
    match untagged(item) {
        ItemView::Text(text) => codec == Codec::Cbor ==> encode_utf8(text).len() <= LONGEST_NAME,
        ItemView::Bytes(bytes) => codec == Codec::Cbor ==> bytes.len() <= LONGEST_NAME,
        _ => false,
    }
}

/// Reads the fields of a frame off map entries, `ev` and `args` being what
/// earlier entries gave. `ev` is a text and must come once; `args` is any
/// JSON value and comes at most once, null when it is absent; other fields
/// are passed over. The first entry at fault decides the error.
pub open spec fn read_entries(
    codec: Codec,
    entries: Seq<(ItemView, ItemView)>,
    ev: Option<Seq<char>>,
    args: Option<JsonView>,
) -> Result<FrameView, Seq<char>>
    decreases entries.len(),
{
    if entries.len() == 0 {
        match ev {
            None => Err("missing field `ev`"@),
            Some(ev) => Ok(
                FrameView {
                    ev,
                    args: match args {
                        Some(args) => args,
                        None => JsonView::Null,
                    },
                },
            ),
        }
    } else {
        let (key, value) = entries[0];
        let rest = entries.skip(1);
        if names(key, "ev"@) {
            if ev is Some {
                Err("duplicate field `ev`"@)
            } else {
                match untagged(value) {
                    ItemView::Text(text) => read_entries(codec, rest, Some(text), args),
                    _ => Err("invalid type: expected a string"@),
                }
            }
        } else if names(key, "args"@) {
            if args is Some {
                Err("duplicate field `args`"@)
            } else {
                match item_json(value) {
                    Ok(json) => read_entries(codec, rest, ev, Some(json)),
                    Err(text) => Err(text),
                }
            }
        } else if can_name(codec, key) {
            read_entries(codec, rest, ev, args)
        } else {
            Err("invalid type: expected a field name"@)
        }
    }
}

/// Reads a frame off a list: its event, then its payload, which may be left
/// out.
pub open spec fn read_list(items: Seq<ItemView>) -> Result<FrameView, Seq<char>> {
    if items.len() == 0 {
        Err("invalid length 0, expected struct Frame with 2 elements"@)
    } else {
        match untagged(items[0]) {
            ItemView::Text(ev) => if items.len() == 1 {
                Ok(FrameView { ev, args: JsonView::Null })
            } else {
                match item_json(items[1]) {
                    Err(text) => Err(text),
                    Ok(args) => if items.len() == 2 {
                        Ok(FrameView { ev, args })
                    } else {
                        Err("trailing characters"@)
                    },
                }
            },
            _ => Err("invalid type: expected a string"@),
        }
    }
}

/// Reads a frame off an item: a map of fields, or, in JSON, also a list.
pub open spec fn read_frame(codec: Codec, item: ItemView) -> Result<FrameView, Seq<char>> {
    match untagged(item) {
        ItemView::Entries(entries) => read_entries(codec, entries, None, None),
        ItemView::List(items) => match codec {
            Codec::Json => read_list(items),
            Codec::Cbor => Err("invalid type: expected struct Frame"@),
        },
        _ => Err("invalid type: expected struct Frame"@),
    }
}

/// The item a codec finds in bytes.
pub open spec fn read_item(codec: Codec, bytes: Seq<u8>) -> Result<ItemView, Seq<char>> {
    match codec {
        Codec::Json => json_read_item(bytes),
        Codec::Cbor => cbor_read_item(bytes),
    }
}

/// The frame a codec reads in bytes, or the error text.
pub open spec fn decoded(codec: Codec, bytes: Seq<u8>) -> Result<FrameView, Seq<char>> {
    match read_item(codec, bytes) {
        Ok(item) => read_frame(codec, item),
        Err(text) => Err(text),
    }
}

/// The bytes of a frame: an object of `ev` and `args`, in this order.
pub open spec fn encoded(codec: Codec, frame: FrameView) -> Seq<u8> {
    match codec {
        Codec::Json => json_object("ev"@, JsonView::Text(frame.ev), "args"@, frame.args),
        Codec::Cbor => cbor_object("ev"@, JsonView::Text(frame.ev), "args"@, frame.args),
    }
}

/// A payload that the codec reads back as it was written: one that nests
/// within the reader's limit and, in JSON, holds no numbers but whole ones.
pub open spec fn faithful(codec: Codec, args: JsonView) -> bool {
    match codec {
        Codec::Json => fits(args, 126, false),
        Codec::Cbor => fits(args, 255, true),
    }
}

pub open spec fn frame_result(r: Result<Frame, ProtocolError>) -> Result<FrameView, Seq<char>> {
    match r {
        Ok(frame) => Ok(frame@),
        Err(error) => Err(error.0@),
    }
}

proof fn lemma_field_names()
    ensures
        "ev"@ != "args"@,
        encode_utf8("ev"@) != encode_utf8("args"@),
{
    reveal_strlit("ev");
    reveal_strlit("args");
    vstd::utf8::encode_utf8_decode_utf8("ev"@);
    vstd::utf8::encode_utf8_decode_utf8("args"@);
    assert("ev"@.len() != "args"@.len());
}

/// The two fields of an encoded frame read back as the frame.
proof fn lemma_reads_back(item: ItemView, frame: FrameView, codec: Codec)
    requires
        holds_two(item, "ev"@, JsonView::Text(frame.ev), "args"@, frame.args),
    ensures
        read_frame(codec, item) == Ok::<FrameView, Seq<char>>(frame),
{
    lemma_field_names();
    let entries = item->Entries_0;
    let one = entries.skip(1);
    let none = one.skip(1);
    assert(untagged(entries[0].0) == ItemView::Text("ev"@));
    assert(untagged(entries[0].1) == ItemView::Text(frame.ev));
    assert(one[0] == entries[1]);
    assert(untagged(one[0].0) == ItemView::Text("args"@));
    assert(none.len() == 0);
    assert(read_entries(codec, none, Some(frame.ev), Some(frame.args)) == Ok::<FrameView, Seq<char>>(
        frame,
    ));
    assert(read_entries(codec, one, Some(frame.ev), None) == Ok::<FrameView, Seq<char>>(frame));
    assert(read_entries(codec, entries, None, None) == Ok::<FrameView, Seq<char>>(frame));
}

fn same_bytes(a: &Vec<u8>, b: &[u8]) -> (equal: bool)
    ensures
        equal == (a@ == b@),
{
    if a.len() != b.len() {
        return false;
    }
    let mut i: usize = 0;
    while i < a.len()
        invariant
            i <= a@.len(),
            a@.len() == b@.len(),
            forall|j: int| 0 <= j < i ==> a@[j] == b@[j],
        decreases a.len() - i,
    {
        if a[i] != b[i] {
            return false;
        }
        i = i + 1;
    }
    assert(a@ =~= b@);
    true
}

/// The parts of an item without the tags around it.
fn untag<'a>(item: &'a ciborium::Value) -> (found: Parts<'a>)
    ensures
        parts_of(found, untagged(item_view(*item))),
        !(found is Tagged),
    decreases item_view(*item),
{
    match parts(item) {
        Parts::Tagged(inner) => untag(inner),
        other => other,
    }
}

/// Whether an item names a field.
fn is_name(key: &ciborium::Value, field: &str) -> (r: bool)
    ensures
        r == names(item_view(*key), field@),
{
    match untag(key) {
        Parts::Text(text) => same(text.as_str(), field),
        Parts::Bytes(bytes) => same_bytes(bytes, field.as_bytes()),
        _ => false,
    }
}

fn refuse(text: &str) -> (r: Result<Frame, ProtocolError>)
    ensures
        frame_result(r) == Err::<FrameView, Seq<char>>(text@),
{
    Err(ProtocolError(text.to_string()))
}

pub open spec fn optional_text(text: Option<String>) -> Option<Seq<char>> {
    match text {
        Some(text) => Some(text@),
        None => None,
    }
}

pub open spec fn optional_json(value: Option<serde_json::Value>) -> Option<JsonView> {
    match value {
        Some(value) => Some(json_view(value)),
        None => None,
    }
}

fn frame_of_entries(codec: Codec, entries: &Vec<(ciborium::Value, ciborium::Value)>) -> (r:
    Result<Frame, ProtocolError>)
    ensures
        frame_result(r) == read_entries(
            codec,
            entries@.map_values(
                |e: (ciborium::Value, ciborium::Value)| (item_view(e.0), item_view(e.1)),
            ),
            None,
            None,
        ),
{
    let ghost all = entries@.map_values(
        |e: (ciborium::Value, ciborium::Value)| (item_view(e.0), item_view(e.1)),
    );
    let mut ev: Option<String> = None;
    let mut args: Option<serde_json::Value> = None;
    let mut i: usize = 0;
    assert(all.skip(0) =~= all);
    while i < entries.len()
        invariant
            i <= entries@.len(),
            all == entries@.map_values(
                |e: (ciborium::Value, ciborium::Value)| (item_view(e.0), item_view(e.1)),
            ),
            read_entries(codec, all, None, None) == read_entries(
                codec,
                all.skip(i as int),
                optional_text(ev),
                optional_json(args),
            ),
        decreases entries.len() - i,
    {
        let key = &entries[i].0;
        let value = &entries[i].1;
        proof {
            assert(all.skip(i as int)[0] == (item_view(*key), item_view(*value)));
            assert(all.skip(i as int).skip(1) =~= all.skip(i + 1));
        }
        if is_name(key, "ev") {
            if ev.is_some() {
                return refuse("duplicate field `ev`");
            }
            match untag(value) {
                Parts::Text(text) => {
                    ev = Some(text.clone());
                },
                _ => {
                    return refuse("invalid type: expected a string");
                },
            }
        } else if is_name(key, "args") {
            if args.is_some() {
                return refuse("duplicate field `args`");
            }
            match json_from_item(value) {
                Ok(json) => {
                    args = Some(json);
                },
                Err(text) => {
                    return Err(ProtocolError(text));
                },
            }
        } else {
            let length: usize = match untag(key) {
                Parts::Text(text) => text.as_str().as_bytes().len(),
                Parts::Bytes(bytes) => bytes.len(),
                _ => {
                    return refuse("invalid type: expected a field name");
                },
            };
            if codec == Codec::Cbor && length > LONGEST_NAME {
                return refuse("invalid type: expected a field name");
            }
        }
        i = i + 1;
    }
    assert(all.skip(i as int).len() == 0);
    match ev {
        None => refuse("missing field `ev`"),
        Some(ev) => Ok(
            Frame {
                ev,
                args: match args {
                    Some(args) => args,
                    None => null(),
                },
            },
        ),
    }
}

fn frame_of_list(items: &Vec<ciborium::Value>) -> (r: Result<Frame, ProtocolError>)
    ensures
        frame_result(r) == read_list(items@.map_values(|i: ciborium::Value| item_view(i))),
{
    let ghost all = items@.map_values(|i: ciborium::Value| item_view(i));
    if items.len() == 0 {
        return refuse("invalid length 0, expected struct Frame with 2 elements");
    }
    assert(all[0] == item_view(items@[0]));
    match untag(&items[0]) {
        Parts::Text(ev) => {
            if items.len() == 1 {
                return Ok(Frame { ev: ev.clone(), args: null() });
            }
            assert(all[1] == item_view(items@[1]));
            match json_from_item(&items[1]) {
                Err(text) => Err(ProtocolError(text)),
                Ok(args) => if items.len() == 2 {
                    Ok(Frame { ev: ev.clone(), args })
                } else {
                    refuse("trailing characters")
                },
            }
        },
        _ => refuse("invalid type: expected a string"),
    }
}

impl Codec {
    /// The codec that the handshake query value (`?protocol=json`) selects;
    /// anything else, absence among it, is CBOR.
    pub fn from_query(v: Option<&str>) -> (codec: Self)
        ensures
            codec == (if v matches Some(name) && name@ == "json"@ {
                Codec::Json
            } else {
                Codec::Cbor
            }),
    {
        match v {
            Some(name) => if same(name, "json") {
                Codec::Json
            } else {
                Codec::Cbor
            },
            None => Codec::Cbor,
        }
    }

    /// The bytes of a frame.
    pub fn encode(&self, frame: &Frame) -> (bytes: Vec<u8>)
        ensures
            bytes@ == encoded(*self, frame@),
    {
        let ev = of_text(frame.ev.as_str());
        let mut bytes: Vec<u8> = Vec::new();
        match self {
            Codec::Json => {
                bytes.push(OPEN);
                bytes.append(&mut to_json(&of_text("ev")));
                bytes.push(COLON);
                bytes.append(&mut to_json(&ev));
                bytes.push(COMMA);
                bytes.append(&mut to_json(&of_text("args")));
                bytes.push(COLON);
                bytes.append(&mut to_json(&frame.args));
                bytes.push(CLOSE);
                assert(bytes@ =~= encoded(*self, frame@));
            },
            Codec::Cbor => {
                bytes.push(PAIR);
                bytes.append(&mut to_cbor(&of_text("ev")));
                bytes.append(&mut to_cbor(&ev));
                bytes.append(&mut to_cbor(&of_text("args")));
                bytes.append(&mut to_cbor(&frame.args));
                assert(bytes@ =~= encoded(*self, frame@));
            },
        }
        bytes
    }

    /// The frame in an item that was read: a map of fields, or, in JSON, also
    /// a list.
    pub fn frame_of(&self, item: &ciborium::Value) -> (r: Result<Frame, ProtocolError>)
        ensures
            frame_result(r) == read_frame(*self, item_view(*item)),
    {
        match untag(item) {
            Parts::Entries(entries) => frame_of_entries(*self, entries),
            Parts::List(items) => match self {
                Codec::Json => frame_of_list(items),
                Codec::Cbor => refuse("invalid type: expected struct Frame"),
            },
            _ => refuse("invalid type: expected struct Frame"),
        }
    }

    /// The frame in bytes. What `encode` wrote for a frame, `decode` gives
    /// back as that frame, in both codecs.
    pub fn decode(&self, bytes: &[u8]) -> (r: Result<Frame, ProtocolError>)
        ensures
            frame_result(r) == decoded(*self, bytes@),
            forall|frame: FrameView|
                faithful(*self, frame.args) && bytes@ == #[trigger] encoded(*self, frame)
                    ==> frame_result(r) == Ok::<FrameView, Seq<char>>(frame),
    {
        let read = match self {
            Codec::Json => item_from_json(bytes),
            Codec::Cbor => item_from_cbor(bytes),
        };
        match read {
            Err(text) => {
                Err(ProtocolError(text))
            },
            Ok(item) => {
                proof {
                    assert forall|frame: FrameView|
                        faithful(*self, frame.args) && bytes@ == #[trigger] encoded(
                            *self,
                            frame,
                        ) implies read_frame(*self, item_view(item)) == Ok::<FrameView, Seq<char>>(
                        frame,
                    ) by {
                        assert(holds_two(
                            item_view(item),
                            "ev"@,
                            JsonView::Text(frame.ev),
                            "args"@,
                            frame.args,
                        ));
                        lemma_reads_back(item_view(item), frame, *self);
                    }
                }
                self.frame_of(&item)
            },
        }
    }
}

}
