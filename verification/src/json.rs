//! JSON values: what a `serde_json::Value` holds, the readers and builders
//! the gateway uses on one, and its two encodings.
//!
//! Everything this module claims of `serde_json` and `ciborium` stands in
//! the contracts of the functions marked as external here.

use vstd::prelude::*;
use vstd::utf8::valid_utf8;

verus! {

/// The opening brace of a JSON object.
pub const OPEN: u8 = 0x7b;

/// The colon between a key and its value.
pub const COLON: u8 = 0x3a;

/// The comma between two entries.
pub const COMMA: u8 = 0x2c;

/// The closing brace of a JSON object.
pub const CLOSE: u8 = 0x7d;

/// The CBOR header of a map with two entries.
pub const PAIR: u8 = 0xa2;

/// A JSON value of `serde_json`.
#[verifier::external_type_specification]
#[verifier::external_body]
pub struct ExValue(serde_json::Value);

/// A CBOR item of `ciborium`. It keeps the entries of a map in the order in
/// which they were read, repeated keys included.
#[verifier::external_type_specification]
#[verifier::external_body]
pub struct ExItem(ciborium::Value);

/// The mathematical reading of a JSON value.
pub enum JsonView {
    Null,
    Bool(bool),
    /// A whole number that is not negative.
    Uint(u64),
    /// A negative whole number.
    Nint(i64),
    /// Any other number, by its bits.
    Float(u64),
    Text(Seq<char>),
    Array(Seq<JsonView>),
    Object(Map<Seq<char>, JsonView>),
}

/// The mathematical reading of a CBOR item.
pub enum ItemView {
    Null,
    Bool(bool),
    Integer(int),
    Float(u64),
    Bytes(Seq<u8>),
    Text(Seq<char>),
    Tagged(u64, Box<ItemView>),
    List(Seq<ItemView>),
    Entries(Seq<(ItemView, ItemView)>),
}

/// One layer of a CBOR item.
pub enum Parts<'a> {
    Text(&'a String),
    Bytes(&'a Vec<u8>),
    Tagged(&'a ciborium::Value),
    List(&'a Vec<ciborium::Value>),
    Entries(&'a Vec<(ciborium::Value, ciborium::Value)>),
    /// Null, a boolean or a number.
    Leaf,
}

/// What a JSON value holds.
pub uninterp spec fn json_view(value: serde_json::Value) -> JsonView;

/// What a CBOR item holds.
pub uninterp spec fn item_view(item: ciborium::Value) -> ItemView;

/// The JSON text that `serde_json::to_vec` writes for a value.
pub uninterp spec fn json_text(value: JsonView) -> Seq<u8>;

/// The bytes that `ciborium::into_writer` writes for a value.
pub uninterp spec fn cbor_text(value: JsonView) -> Seq<u8>;

/// What `serde_json::from_slice` reads as a value: the value, or its error
/// text.
pub uninterp spec fn json_read(bytes: Seq<u8>) -> Result<JsonView, Seq<char>>;

/// What `serde_json::from_slice` reads as a CBOR item: the item, or its
/// error text.
pub uninterp spec fn json_read_item(bytes: Seq<u8>) -> Result<ItemView, Seq<char>>;

/// What `ciborium::from_reader` reads as a CBOR item: the item, or its error
/// text.
pub uninterp spec fn cbor_read_item(bytes: Seq<u8>) -> Result<ItemView, Seq<char>>;

/// The JSON value that `ciborium::Value::deserialized` makes of an item, or
/// its error text.
pub uninterp spec fn item_json(item: ItemView) -> Result<JsonView, Seq<char>>;

/// A result by what it holds.
pub open spec fn value_result(r: Result<serde_json::Value, String>) -> Result<JsonView, Seq<char>> {
    match r {
        Ok(value) => Ok(json_view(value)),
        Err(text) => Err(text@),
    }
}

/// A result by what it holds.
pub open spec fn item_result(r: Result<ciborium::Value, String>) -> Result<ItemView, Seq<char>> {
    match r {
        Ok(item) => Ok(item_view(item)),
        Err(text) => Err(text@),
    }
}

/// The value under a key of an object.
pub open spec fn field_of(value: JsonView, key: Seq<char>) -> Option<JsonView> {
    match value {
        JsonView::Object(fields) => if fields.dom().contains(key) {
            Some(fields[key])
        } else {
            None
        },
        _ => None,
    }
}

/// The text under a key of an object.
pub open spec fn text_field(value: JsonView, key: Seq<char>) -> Option<Seq<char>> {
    match field_of(value, key) {
        Some(JsonView::Text(text)) => Some(text),
        _ => None,
    }
}

/// The object without fields.
pub open spec fn no_fields() -> Map<Seq<char>, JsonView> {
    Map::empty()
}

/// Containers nest at most `depth` deep in the value, and it holds no
/// number but whole ones unless `floats`.
pub open spec fn fits(value: JsonView, depth: nat, floats: bool) -> bool
    decreases depth,
{
    match value {
        JsonView::Array(items) => depth > 0 && forall|i: int|
            0 <= i < items.len() ==> fits(#[trigger] items[i], (depth - 1) as nat, floats),
        JsonView::Object(fields) => depth > 0 && forall|key: Seq<char>|
            #[trigger] fields.dom().contains(key) ==> fits(
                fields[key],
                (depth - 1) as nat,
                floats,
            ),
        JsonView::Float(_) => floats,
        _ => true,
    }
}

/// The JSON text of an object with two entries, in this order.
pub open spec fn json_object(k1: Seq<char>, v1: JsonView, k2: Seq<char>, v2: JsonView) -> Seq<u8> {
    seq![OPEN] + json_text(JsonView::Text(k1)) + seq![COLON] + json_text(v1) + seq![
        COMMA,
    ] + json_text(JsonView::Text(k2)) + seq![COLON] + json_text(v2) + seq![CLOSE]
}

/// The CBOR bytes of a map with two entries, in this order.
pub open spec fn cbor_object(k1: Seq<char>, v1: JsonView, k2: Seq<char>, v2: JsonView) -> Seq<u8> {
    seq![PAIR] + cbor_text(JsonView::Text(k1)) + cbor_text(v1) + cbor_text(JsonView::Text(k2))
        + cbor_text(v2)
}

/// The item is a map with two entries under these keys, whose values read
/// as `v1` and `v2`; a text reads as a text item.
pub open spec fn holds_two(
    item: ItemView,
    k1: Seq<char>,
    v1: JsonView,
    k2: Seq<char>,
    v2: JsonView,
) -> bool {
    &&& item matches ItemView::Entries(entries)
    &&& entries.len() == 2
    &&& entries[0].0 == ItemView::Text(k1)
    &&& entries[1].0 == ItemView::Text(k2)
    &&& reads_as(entries[0].1, v1)
    &&& reads_as(entries[1].1, v2)
}

pub open spec fn reads_as(item: ItemView, value: JsonView) -> bool {
    &&& item_json(item) == Ok::<JsonView, Seq<char>>(value)
    &&& value matches JsonView::Text(text) ==> item == ItemView::Text(text)
}

/// Where the bytes are the JSON text of an object with two entries, the item
/// is that object.
pub open spec fn json_reads_back(bytes: Seq<u8>, item: Result<ItemView, Seq<char>>) -> bool {
    forall|k1: Seq<char>, v1: JsonView, k2: Seq<char>, v2: JsonView|
        fits(v1, 126, false) && fits(v2, 126, false) && bytes == #[trigger] json_object(
            k1,
            v1,
            k2,
            v2,
        ) ==> (item matches Ok(i) && holds_two(i, k1, v1, k2, v2))
}

/// Where the bytes are the CBOR of a map with two entries, the item is that
/// map.
pub open spec fn cbor_reads_back(bytes: Seq<u8>, item: Result<ItemView, Seq<char>>) -> bool {
    forall|k1: Seq<char>, v1: JsonView, k2: Seq<char>, v2: JsonView|
        fits(v1, 255, true) && fits(v2, 255, true) && bytes == #[trigger] cbor_object(
            k1,
            v1,
            k2,
            v2,
        ) ==> (item matches Ok(i) && holds_two(i, k1, v1, k2, v2))
}

/// The parts are those of the item.
pub open spec fn parts_of(parts: Parts, item: ItemView) -> bool {
    match parts {
        Parts::Text(text) => item == ItemView::Text(text@),
        Parts::Bytes(bytes) => item == ItemView::Bytes(bytes@),
        Parts::Tagged(inner) => item matches ItemView::Tagged(_, boxed) && *boxed == item_view(
            *inner,
        ),
        Parts::List(items) => item == ItemView::List(
            items@.map_values(|i: ciborium::Value| item_view(i)),
        ),
        Parts::Entries(entries) => item == ItemView::Entries(
            entries@.map_values(
                |e: (ciborium::Value, ciborium::Value)| (item_view(e.0), item_view(e.1)),
            ),
        ),
        Parts::Leaf => item is Null || item is Bool || item is Integer || item is Float,
    }
}

/// `Value::clone`: the copy holds what the original holds.
pub assume_specification[ <serde_json::Value as Clone>::clone ](value: &serde_json::Value) -> (copy:
    serde_json::Value)
    ensures
        json_view(copy) == json_view(*value),
;

/// `Value::get` with a string: the value under that key of an object, and
/// nothing for a missing key or a value that is no object.
#[verifier::external_body]
pub(crate) fn field<'a>(value: &'a serde_json::Value, key: &str) -> (found: Option<
    &'a serde_json::Value,
>)
    ensures
        match field_of(json_view(*value), key@) {
            Some(v) => found matches Some(f) && json_view(*f) == v,
            None => found is None,
        },
{
    value.get(key)
}

/// `Value::as_str`: the text of a string value, nothing for any other.
#[verifier::external_body]
pub(crate) fn as_text(value: &serde_json::Value) -> (text: Option<&str>)
    ensures
        match json_view(*value) {
            JsonView::Text(t) => text matches Some(s) && s@ == t,
            _ => text is None,
        },
{
    value.as_str()
}

/// `Value::default`: null.
#[verifier::external_body]
pub(crate) fn null() -> (value: serde_json::Value)
    ensures
        json_view(value) == JsonView::Null,
{
    serde_json::Value::default()
}

/// `Value::from` of a boolean.
#[verifier::external_body]
pub(crate) fn of_bool(b: bool) -> (value: serde_json::Value)
    ensures
        json_view(value) == JsonView::Bool(b),
{
    serde_json::Value::from(b)
}

/// `Value::from` of an unsigned number.
#[verifier::external_body]
pub(crate) fn of_u64(n: u64) -> (value: serde_json::Value)
    ensures
        json_view(value) == JsonView::Uint(n),
{
    serde_json::Value::from(n)
}

/// `Value::from` of a string.
#[verifier::external_body]
pub(crate) fn of_text(text: &str) -> (value: serde_json::Value)
    ensures
        json_view(value) == JsonView::Text(text@),
{
    serde_json::Value::from(text)
}

/// `Value::from` of a list of values.
#[verifier::external_body]
pub(crate) fn of_list(items: Vec<serde_json::Value>) -> (value: serde_json::Value)
    ensures
        json_view(value) == JsonView::Array(
            items@.map_values(|v: serde_json::Value| json_view(v)),
        ),
{
    serde_json::Value::from(items)
}

/// `Value::from` of an empty `serde_json::Map`: the object without fields.
#[verifier::external_body]
pub(crate) fn object() -> (value: serde_json::Value)
    ensures
        json_view(value) == JsonView::Object(no_fields()),
{
    serde_json::Value::from(serde_json::Map::new())
}

/// Assignment through `Value::index_mut` with a string: the object gains the
/// field, in place of one under the same key. Defined for objects; any
/// value but an object or null would make it panic.
#[verifier::external_body]
pub(crate) fn put_field(value: &mut serde_json::Value, key: &str, item: serde_json::Value)
    requires
        json_view(*old(value)) is Object,
    ensures
        json_view(*final(value)) == JsonView::Object(
            json_view(*old(value))->Object_0.insert(key@, json_view(item)),
        ),
{
    value[key] = item;
}

/// `serde_json::to_vec`, which does not fail on a `Value` and writes UTF-8.
#[verifier::external_body]
pub(crate) fn to_json(value: &serde_json::Value) -> (bytes: Vec<u8>)
    ensures
        bytes@ == json_text(json_view(*value)),
        valid_utf8(bytes@),
{
    serde_json::to_vec(value).expect("a JSON value always serializes")
}

/// `ciborium::into_writer` into a vector, which does not fail on a `Value`.
#[verifier::external_body]
pub(crate) fn to_cbor(value: &serde_json::Value) -> (bytes: Vec<u8>)
    ensures
        bytes@ == cbor_text(json_view(*value)),
{
    let mut bytes = Vec::new();
    ciborium::into_writer(value, &mut bytes).expect("a JSON value always serializes");
    bytes
}

/// `serde_json::from_slice` into a `Value`, its error as text.
#[verifier::external_body]
pub(crate) fn from_json(bytes: &[u8]) -> (value: Result<serde_json::Value, String>)
    ensures
        value_result(value) == json_read(bytes@),
{
    serde_json::from_slice(bytes).map_err(|e| e.to_string())
}

/// `serde_json::from_slice` into a CBOR item, its error as text. The text of
/// an object with two entries reads back as those two entries, as long as
/// the nesting stays under the reader's limit (127 containers, the object
/// itself among them) and all numbers are whole: the reader may round
/// others.
#[verifier::external_body]
pub(crate) fn item_from_json(bytes: &[u8]) -> (item: Result<ciborium::Value, String>)
    ensures
        item_result(item) == json_read_item(bytes@),
        json_reads_back(bytes@, item_result(item)),
{
    serde_json::from_slice(bytes).map_err(|e| e.to_string())
}

/// `ciborium::from_reader` into a CBOR item, its error as text. The bytes of
/// a map with two entries read back as those two entries, as long as the
/// nesting stays under the reader's limit (256 containers, the map itself
/// among them).
#[verifier::external_body]
pub(crate) fn item_from_cbor(bytes: &[u8]) -> (item: Result<ciborium::Value, String>)
    ensures
        item_result(item) == cbor_read_item(bytes@),
        cbor_reads_back(bytes@, item_result(item)),
{
    ciborium::from_reader(bytes).map_err(|e| e.to_string())
}

/// The variants of `ciborium::Value`, told apart.
#[verifier::external_body]
pub(crate) fn parts<'a>(item: &'a ciborium::Value) -> (parts: Parts<'a>)
    ensures
        parts_of(parts, item_view(*item)),
{
    match item {
        ciborium::Value::Text(text) => Parts::Text(text),
        ciborium::Value::Bytes(bytes) => Parts::Bytes(bytes),
        ciborium::Value::Tag(_, inner) => Parts::Tagged(inner),
        ciborium::Value::Array(items) => Parts::List(items),
        ciborium::Value::Map(entries) => Parts::Entries(entries),
        _ => Parts::Leaf,
    }
}

/// `ciborium::Value::deserialized` into a JSON value, its error as text.
#[verifier::external_body]
pub(crate) fn json_from_item(item: &ciborium::Value) -> (value: Result<serde_json::Value, String>)
    ensures
        value_result(value) == item_json(item_view(*item)),
{
    item.deserialized().map_err(|e| e.to_string())
}

}
