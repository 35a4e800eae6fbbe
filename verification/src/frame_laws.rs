//! What bytes and items are a frame, said of their fields.

use crate::json::{cbor_text, item_json, json_text, ItemView, JsonView};
use crate::protocol::{
    can_name, decoded, encoded, names, read_entries, read_frame, read_item, untagged, Codec,
    FrameView,
};
use vstd::prelude::*;
use vstd::utf8::encode_utf8;

verus! {

/// The item is this text, or this text under tags.
pub open spec fn says(item: ItemView, text: Seq<char>) -> bool
    decreases item,
{
    match item {
        ItemView::Text(t) => t == text,
        ItemView::Tagged(_, inner) => says(*inner, text),
        _ => false,
    }
}

/// The item is a text or bytes, or one of them under tags, and in CBOR no
/// longer than 4096 bytes.
pub open spec fn can_be_a_name(codec: Codec, item: ItemView) -> bool
    decreases item,
{
    match item {
        ItemView::Text(t) => codec == Codec::Json || encode_utf8(t).len() <= 4096,
        ItemView::Bytes(b) => codec == Codec::Json || b.len() <= 4096,
        ItemView::Tagged(_, inner) => can_be_a_name(codec, *inner),
        _ => false,
    }
}

/// The item names a field: it is the field's name, or the bytes of that, or
/// one of them under tags.
pub open spec fn calls(item: ItemView, field: Seq<char>) -> bool
    decreases item,
{
    match item {
        ItemView::Text(t) => t == field,
        ItemView::Bytes(b) => b == encode_utf8(field),
        ItemView::Tagged(_, inner) => calls(*inner, field),
        _ => false,
    }
}

proof fn lemma_under_tags(item: ItemView, codec: Codec, text: Seq<char>)
    ensures
        names(item, text) <==> calls(item, text),
        can_name(codec, item) <==> can_be_a_name(codec, item),
        untagged(item) == ItemView::Text(text) <==> says(item, text),
        !(untagged(item) is Tagged),
    decreases item,
{
    match item {
        ItemView::Tagged(_, inner) => {
            lemma_under_tags(*inner, codec, text);
        },
        _ => {},
    }
}

/// No entry is called so.
pub open spec fn none_called(entries: Seq<(ItemView, ItemView)>, field: Seq<char>) -> bool {
    forall|i: int| 0 <= i < entries.len() ==> !calls((#[trigger] entries[i]).0, field)
}

/// The only entry that is called so is the one at `i`.
pub open spec fn only_called(
    entries: Seq<(ItemView, ItemView)>,
    field: Seq<char>,
    i: int,
) -> bool {
    &&& 0 <= i < entries.len()
    &&& calls(entries[i].0, field)
    &&& forall|j: int| 0 <= j < entries.len() && calls((#[trigger] entries[j]).0, field) ==> j == i
}

/// The entries make the frame: exactly one of them is called `ev` and is the
/// text of the event; at most one is called `args` and is the payload, which
/// is null without it; the others are passed over, whatever they hold.
pub open spec fn makes(
    codec: Codec,
    entries: Seq<(ItemView, ItemView)>,
    frame: FrameView,
) -> bool {
    &&& exists|i: int| #[trigger]
        only_called(entries, "ev"@, i) && says(entries[i].1, frame.ev)
    &&& {
        ||| none_called(entries, "args"@) && frame.args is Null
        ||| exists|i: int| #[trigger]
            only_called(entries, "args"@, i) && item_json(entries[i].1) == Ok::<
                JsonView,
                Seq<char>,
            >(frame.args)
    }
    &&& forall|i: int|
        0 <= i < entries.len() ==> calls((#[trigger] entries[i]).0, "ev"@) || calls(
            entries[i].0,
            "args"@,
        ) || can_be_a_name(codec, entries[i].0)
}

/// The event so far and that of the entries to come, of which there is one in
/// all.
spec fn ev_fits(
    entries: Seq<(ItemView, ItemView)>,
    ev: Option<Seq<char>>,
    frame: FrameView,
) -> bool {
    match ev {
        Some(text) => none_called(entries, "ev"@) && frame.ev == text,
        None => exists|i: int| #[trigger]
            only_called(entries, "ev"@, i) && says(entries[i].1, frame.ev),
    }
}

/// The payload so far and that of the entries to come, of which there is at
/// most one in all.
spec fn args_fit(
    entries: Seq<(ItemView, ItemView)>,
    args: Option<JsonView>,
    frame: FrameView,
) -> bool {
    match args {
        Some(value) => none_called(entries, "args"@) && frame.args == value,
        None => (none_called(entries, "args"@) && frame.args is Null) || exists|i: int| #[trigger]
            only_called(entries, "args"@, i) && item_json(entries[i].1) == Ok::<
                JsonView,
                Seq<char>,
            >(frame.args),
    }
}

spec fn keys_fit(codec: Codec, entries: Seq<(ItemView, ItemView)>) -> bool {
    forall|i: int|
        0 <= i < entries.len() ==> calls((#[trigger] entries[i]).0, "ev"@) || calls(
            entries[i].0,
            "args"@,
        ) || can_be_a_name(codec, entries[i].0)
}

proof fn lemma_names_differ(item: ItemView)
    ensures
        !(calls(item, "ev"@) && calls(item, "args"@)),
    decreases item,
{
    reveal_strlit("ev");
    reveal_strlit("args");
    assert("ev"@.len() != "args"@.len());
    vstd::utf8::encode_utf8_decode_utf8("ev"@);
    vstd::utf8::encode_utf8_decode_utf8("args"@);
    match item {
        ItemView::Tagged(_, inner) => {
            lemma_names_differ(*inner);
        },
        _ => {},
    }
}

/// An entry called otherwise, put in front, changes nothing of what is called
/// so behind it; one that is called so is the only one where none follows.
proof fn lemma_front(entries: Seq<(ItemView, ItemView)>, field: Seq<char>)
    requires
        entries.len() > 0,
    ensures
        none_called(entries, field) <==> !calls(entries[0].0, field) && none_called(
            entries.skip(1),
            field,
        ),
        only_called(entries, field, 0) <==> calls(entries[0].0, field) && none_called(
            entries.skip(1),
            field,
        ),
        forall|i: int| #[trigger]
            only_called(entries, field, i) && i != 0 ==> !calls(entries[0].0, field) && only_called(
                entries.skip(1),
                field,
                i - 1,
            ),
        forall|i: int| #[trigger]
            only_called(entries.skip(1), field, i) && !calls(entries[0].0, field) ==> only_called(
                entries,
                field,
                i + 1,
            ),
{
    let rest = entries.skip(1);
    assert forall|i: int| 0 <= i < rest.len() implies #[trigger] rest[i] == entries[i + 1] by {}
    if none_called(entries, field) {
        assert forall|i: int| 0 <= i < rest.len() implies !calls((#[trigger] rest[i]).0, field) by {
            assert(!calls(entries[i + 1].0, field));
        }
    }
    if !calls(entries[0].0, field) && none_called(rest, field) {
        assert forall|i: int| 0 <= i < entries.len() implies !calls(
            (#[trigger] entries[i]).0,
            field,
        ) by {
            if i > 0 {
                assert(!calls(rest[i - 1].0, field));
            }
        }
    }
    if only_called(entries, field, 0) {
        assert forall|i: int| 0 <= i < rest.len() implies !calls((#[trigger] rest[i]).0, field) by {
            assert(entries[i + 1] == rest[i]);
        }
    }
    if calls(entries[0].0, field) && none_called(rest, field) {
        assert forall|j: int| 0 <= j < entries.len() && calls(
            (#[trigger] entries[j]).0,
            field,
        ) implies j == 0 by {
            if j > 0 {
                assert(!calls(rest[j - 1].0, field));
            }
        }
    }
    assert forall|i: int| #[trigger] only_called(entries, field, i) && i != 0 implies !calls(
        entries[0].0,
        field,
    ) && only_called(rest, field, i - 1) by {
        assert(rest[i - 1] == entries[i]);
        assert forall|j: int| 0 <= j < rest.len() && calls((#[trigger] rest[j]).0, field) implies j
            == i - 1 by {
            assert(rest[j] == entries[j + 1]);
        }
    }
    assert forall|i: int| #[trigger] only_called(rest, field, i) && !calls(
        entries[0].0,
        field,
    ) implies only_called(entries, field, i + 1) by {
        assert(rest[i] == entries[i + 1]);
        assert forall|j: int| 0 <= j < entries.len() && calls(
            (#[trigger] entries[j]).0,
            field,
        ) implies j == i + 1 by {
            if j > 0 {
                assert(rest[j - 1] == entries[j]);
            }
        }
    }
}

proof fn lemma_ev_front(
    entries: Seq<(ItemView, ItemView)>,
    ev: Option<Seq<char>>,
    frame: FrameView,
    text: Seq<char>,
)
    requires
        entries.len() > 0,
    ensures
        !calls(entries[0].0, "ev"@) ==> (ev_fits(entries, ev, frame) <==> ev_fits(
            entries.skip(1),
            ev,
            frame,
        )),
        calls(entries[0].0, "ev"@) && ev is Some ==> !ev_fits(entries, ev, frame),
        calls(entries[0].0, "ev"@) && ev is None && says(entries[0].1, text) ==> (ev_fits(
            entries,
            ev,
            frame,
        ) <==> ev_fits(entries.skip(1), Some(text), frame)),
        calls(entries[0].0, "ev"@) && ev is None && !says(entries[0].1, frame.ev) ==> !ev_fits(
            entries,
            ev,
            frame,
        ),
{
    let rest = entries.skip(1);
    lemma_front(entries, "ev"@);
    if ev is None {
        if ev_fits(entries, ev, frame) {
            let i = choose|i: int| #[trigger]
                only_called(entries, "ev"@, i) && says(entries[i].1, frame.ev);
            if i != 0 {
                assert(only_called(rest, "ev"@, i - 1));
                assert(rest[i - 1] == entries[i]);
            } else {
                lemma_one_text(entries[0].1, text, frame.ev);
            }
        }
        if !calls(entries[0].0, "ev"@) && ev_fits(rest, ev, frame) {
            let i = choose|i: int| #[trigger]
                only_called(rest, "ev"@, i) && says(rest[i].1, frame.ev);
            assert(only_called(entries, "ev"@, i + 1));
            assert(rest[i] == entries[i + 1]);
        }
        if calls(entries[0].0, "ev"@) && says(entries[0].1, text) && ev_fits(
            rest,
            Some(text),
            frame,
        ) {
            assert(only_called(entries, "ev"@, 0));
        }
    }
}

proof fn lemma_one_text(item: ItemView, a: Seq<char>, b: Seq<char>)
    ensures
        says(item, a) && says(item, b) ==> a == b,
    decreases item,
{
    match item {
        ItemView::Tagged(_, inner) => {
            lemma_one_text(*inner, a, b);
        },
        _ => {},
    }
}

proof fn lemma_args_front(
    entries: Seq<(ItemView, ItemView)>,
    args: Option<JsonView>,
    frame: FrameView,
)
    requires
        entries.len() > 0,
    ensures
        !calls(entries[0].0, "args"@) ==> (args_fit(entries, args, frame) <==> args_fit(
            entries.skip(1),
            args,
            frame,
        )),
        calls(entries[0].0, "args"@) && args is Some ==> !args_fit(entries, args, frame),
        calls(entries[0].0, "args"@) && args is None ==> match item_json(entries[0].1) {
            Ok(value) => args_fit(entries, args, frame) <==> args_fit(
                entries.skip(1),
                Some(value),
                frame,
            ),
            Err(_) => !args_fit(entries, args, frame),
        },
{
    let rest = entries.skip(1);
    lemma_front(entries, "args"@);
    if args is None {
        if args_fit(entries, args, frame) && !none_called(entries, "args"@) {
            let i = choose|i: int| #[trigger]
                only_called(entries, "args"@, i) && item_json(entries[i].1) == Ok::<
                    JsonView,
                    Seq<char>,
                >(frame.args);
            if i != 0 {
                assert(only_called(rest, "args"@, i - 1));
                assert(rest[i - 1] == entries[i]);
            }
        }
        if !calls(entries[0].0, "args"@) && args_fit(rest, args, frame) && !none_called(
            rest,
            "args"@,
        ) {
            let i = choose|i: int| #[trigger]
                only_called(rest, "args"@, i) && item_json(rest[i].1) == Ok::<JsonView, Seq<char>>(
                    frame.args,
                );
            assert(only_called(entries, "args"@, i + 1));
            assert(rest[i] == entries[i + 1]);
        }
        if calls(entries[0].0, "args"@) && none_called(rest, "args"@) {
            assert(only_called(entries, "args"@, 0));
        }
    }
}

proof fn lemma_keys_front(codec: Codec, entries: Seq<(ItemView, ItemView)>)
    requires
        entries.len() > 0,
    ensures
        keys_fit(codec, entries) <==> (calls(entries[0].0, "ev"@) || calls(entries[0].0, "args"@)
            || can_be_a_name(codec, entries[0].0)) && keys_fit(codec, entries.skip(1)),
{
    let rest = entries.skip(1);
    if keys_fit(codec, entries) {
        assert forall|i: int| 0 <= i < rest.len() implies calls((#[trigger] rest[i]).0, "ev"@)
            || calls(rest[i].0, "args"@) || can_be_a_name(codec, rest[i].0) by {
            assert(rest[i] == entries[i + 1]);
        }
    }
    if (calls(entries[0].0, "ev"@) || calls(entries[0].0, "args"@) || can_be_a_name(
        codec,
        entries[0].0,
    )) && keys_fit(codec, rest) {
        assert forall|i: int| 0 <= i < entries.len() implies calls(
            (#[trigger] entries[i]).0,
            "ev"@,
        ) || calls(entries[i].0, "args"@) || can_be_a_name(codec, entries[i].0) by {
            if i > 0 {
                assert(rest[i - 1] == entries[i]);
            }
        }
    }
}

proof fn lemma_entries(
    codec: Codec,
    entries: Seq<(ItemView, ItemView)>,
    ev: Option<Seq<char>>,
    args: Option<JsonView>,
    frame: FrameView,
)
    ensures
        read_entries(codec, entries, ev, args) == Ok::<FrameView, Seq<char>>(frame) <==> ev_fits(
            entries,
            ev,
            frame,
        ) && args_fit(entries, args, frame) && keys_fit(codec, entries),
    decreases entries.len(),
{
    if entries.len() == 0 {
        assert(none_called(entries, "ev"@) && none_called(entries, "args"@));
    } else {
        let (key, value) = entries[0];
        let rest = entries.skip(1);
        lemma_under_tags(key, codec, "ev"@);
        lemma_under_tags(key, codec, "args"@);
        lemma_names_differ(key);
        lemma_keys_front(codec, entries);
        lemma_args_front(entries, args, frame);
        lemma_under_tags(value, codec, frame.ev);
        if calls(key, "ev"@) {
            match untagged(value) {
                ItemView::Text(text) => {
                    lemma_under_tags(value, codec, text);
                    lemma_ev_front(entries, ev, frame, text);
                    if ev is None {
                        lemma_entries(codec, rest, Some(text), args, frame);
                    }
                },
                _ => {
                    lemma_ev_front(entries, ev, frame, frame.ev);
                },
            }
        } else {
            lemma_ev_front(entries, ev, frame, frame.ev);
            if calls(key, "args"@) {
                if let Ok(json) = item_json(value) {
                    lemma_entries(codec, rest, ev, Some(json), frame);
                }
            } else {
                lemma_entries(codec, rest, ev, args, frame);
            }
        }
    }
}

/// A map is read as a frame exactly where its entries make that frame, in
/// whatever order they stand; so bytes that hold the map are.
pub proof fn maps_are_read_by_their_names(
    codec: Codec,
    entries: Seq<(ItemView, ItemView)>,
    frame: FrameView,
    bytes: Seq<u8>,
)
    ensures
        read_frame(codec, ItemView::Entries(entries)) == Ok::<FrameView, Seq<char>>(frame)
            <==> makes(codec, entries, frame),
        read_item(codec, bytes) == Ok::<ItemView, Seq<char>>(ItemView::Entries(entries)) ==> (
        decoded(codec, bytes) == Ok::<FrameView, Seq<char>>(frame) <==> makes(codec, entries, frame)),
{
    lemma_entries(codec, entries, None, None, frame);
    if makes(codec, entries, frame) {
        assert(ev_fits(entries, None, frame));
        assert(args_fit(entries, None, frame));
        assert(keys_fit(codec, entries));
    }
    if read_frame(codec, ItemView::Entries(entries)) == Ok::<FrameView, Seq<char>>(frame) {
        assert(ev_fits(entries, None, frame));
        assert(args_fit(entries, None, frame));
        assert(keys_fit(codec, entries));
        assert(makes(codec, entries, frame));
    }
}

proof fn lemma_goes_on(
    codec: Codec,
    a: Seq<(ItemView, ItemView)>,
    b: Seq<(ItemView, ItemView)>,
    ev: Option<Seq<char>>,
    args: Option<JsonView>,
    frame: FrameView,
)
    requires
        read_entries(codec, a, ev, args) == Ok::<FrameView, Seq<char>>(frame),
    ensures
        read_entries(codec, a + b, ev, args) == read_entries(
            codec,
            b,
            Some(frame.ev),
            if args is None && none_called(a, "args"@) {
                None
            } else {
                Some(frame.args)
            },
        ),
    decreases a.len(),
{
    if a.len() == 0 {
        assert(a + b =~= b);
        assert(none_called(a, "args"@));
    } else {
        let (key, value) = a[0];
        let rest = a.skip(1);
        assert((a + b)[0] == a[0]);
        assert((a + b).skip(1) =~= rest + b);
        lemma_under_tags(key, codec, "ev"@);
        lemma_under_tags(key, codec, "args"@);
        lemma_names_differ(key);
        lemma_front(a, "args"@);
        if calls(key, "ev"@) {
            if let ItemView::Text(text) = untagged(value) {
                lemma_goes_on(codec, rest, b, Some(text), args, frame);
            }
        } else if calls(key, "args"@) {
            if let Ok(json) = item_json(value) {
                lemma_goes_on(codec, rest, b, ev, Some(json), frame);
            }
        } else {
            lemma_goes_on(codec, rest, b, ev, args, frame);
        }
    }
}

/// What is wrong with a map is said of its first entry at fault, whatever
/// follows that: a field that comes a second time, a payload that cannot be
/// read, a key that can be no name. A map without fault but without an event
/// misses it.
pub proof fn faults_are_named(
    codec: Codec,
    a: Seq<(ItemView, ItemView)>,
    x: (ItemView, ItemView),
    b: Seq<(ItemView, ItemView)>,
    frame: FrameView,
)
    ensures
        makes(codec, a, frame) ==> {
            let read = read_frame(codec, ItemView::Entries(a + (seq![x] + b)));
            &&& calls(x.0, "ev"@) ==> read == Err::<FrameView, Seq<char>>("duplicate field `ev`"@)
            &&& calls(x.0, "args"@) && !none_called(a, "args"@) ==> read == Err::<
                FrameView,
                Seq<char>,
            >("duplicate field `args`"@)
            &&& calls(x.0, "args"@) && none_called(a, "args"@) ==> (item_json(x.1) matches Err(why)
                ==> read == Err::<FrameView, Seq<char>>(why))
            &&& !calls(x.0, "ev"@) && !calls(x.0, "args"@) && !can_be_a_name(codec, x.0) ==> read
                == Err::<FrameView, Seq<char>>("invalid type: expected a field name"@)
        },
        calls(x.0, "ev"@) && (forall|text: Seq<char>| !#[trigger] says(x.1, text)) ==> read_frame(
            codec,
            ItemView::Entries(seq![x] + b),
        ) == Err::<FrameView, Seq<char>>("invalid type: expected a string"@),
        none_called(a, "ev"@) && none_called(a, "args"@) && (forall|i: int|
            0 <= i < a.len() ==> can_be_a_name(codec, (#[trigger] a[i]).0)) ==> read_frame(
            codec,
            ItemView::Entries(a),
        ) == Err::<FrameView, Seq<char>>("missing field `ev`"@),
{
    lemma_under_tags(x.0, codec, "ev"@);
    lemma_under_tags(x.0, codec, "args"@);
    lemma_names_differ(x.0);
    assert((seq![x] + b)[0] == x);
    if makes(codec, a, frame) {
        maps_are_read_by_their_names(codec, a, frame, Seq::empty());
        lemma_goes_on(codec, a, seq![x] + b, None, None, frame);
    }
    if let ItemView::Text(text) = untagged(x.1) {
        lemma_under_tags(x.1, codec, text);
    }
    if none_called(a, "ev"@) && none_called(a, "args"@) && forall|i: int|
        0 <= i < a.len() ==> can_be_a_name(codec, (#[trigger] a[i]).0) {
        lemma_missing(codec, a);
    }
}

proof fn lemma_missing(codec: Codec, a: Seq<(ItemView, ItemView)>)
    requires
        none_called(a, "ev"@),
        none_called(a, "args"@),
        forall|i: int| 0 <= i < a.len() ==> can_be_a_name(codec, (#[trigger] a[i]).0),
    ensures
        read_entries(codec, a, None, None) == Err::<FrameView, Seq<char>>("missing field `ev`"@),
    decreases a.len(),
{
    if a.len() > 0 {
        let rest = a.skip(1);
        lemma_front(a, "ev"@);
        lemma_front(a, "args"@);
        lemma_under_tags(a[0].0, codec, "ev"@);
        lemma_under_tags(a[0].0, codec, "args"@);
        assert forall|i: int| 0 <= i < rest.len() implies can_be_a_name(
            codec,
            (#[trigger] rest[i]).0,
        ) by {
            assert(rest[i] == a[i + 1]);
        }
        lemma_missing(codec, rest);
    }
}

/// In JSON a list of an event, or of an event and its payload, is a frame, and
/// no other list is. In CBOR no list is a frame; anything but a map or a list
/// is one in neither.
pub proof fn lists_are_read_in_order(codec: Codec, items: Seq<ItemView>, frame: FrameView, tag: u64)
    ensures
        read_frame(Codec::Json, ItemView::List(items)) == Ok::<FrameView, Seq<char>>(frame) <==> {
            ||| items.len() == 1 && says(items[0], frame.ev) && frame.args is Null
            ||| items.len() == 2 && says(items[0], frame.ev) && item_json(items[1]) == Ok::<
                JsonView,
                Seq<char>,
            >(frame.args)
        },
        read_frame(Codec::Cbor, ItemView::List(items)) is Err,
        read_frame(codec, ItemView::Null) is Err,
        forall|b: bool| #[trigger] read_frame(codec, ItemView::Bool(b)) is Err,
        forall|n: int| #[trigger] read_frame(codec, ItemView::Integer(n)) is Err,
        forall|f: u64| #[trigger] read_frame(codec, ItemView::Float(f)) is Err,
        forall|b: Seq<u8>| #[trigger] read_frame(codec, ItemView::Bytes(b)) is Err,
        forall|t: Seq<char>| #[trigger] read_frame(codec, ItemView::Text(t)) is Err,
        forall|item: ItemView| #[trigger]
            read_frame(codec, ItemView::Tagged(tag, Box::new(item))) == read_frame(codec, item),
{
    if items.len() > 0 {
        lemma_under_tags(items[0], codec, frame.ev);
        if let ItemView::Text(text) = untagged(items[0]) {
            lemma_under_tags(items[0], codec, text);
        }
    }
}

/// Bytes that hold no item are no frame, and the error is the reader's.
pub proof fn unreadable_bytes_are_no_frame(codec: Codec, bytes: Seq<u8>, why: Seq<char>)
    ensures
        read_item(codec, bytes) == Err::<ItemView, Seq<char>>(why) ==> decoded(codec, bytes) == Err::<
            FrameView,
            Seq<char>,
        >(why),
{
}

/// A frame is written with its event first and its payload second: in JSON
/// within braces, with colons and a comma, in CBOR behind the header of a map
/// of two.
pub proof fn frames_are_written_in_order(frame: FrameView)
    ensures
        encoded(Codec::Json, frame) == seq![0x7bu8] + json_text(JsonView::Text("ev"@)) + seq![
            0x3au8,
        ] + json_text(JsonView::Text(frame.ev)) + seq![0x2cu8] + json_text(
            JsonView::Text("args"@),
        ) + seq![0x3au8] + json_text(frame.args) + seq![0x7du8],
        encoded(Codec::Cbor, frame) == seq![0xa2u8] + cbor_text(JsonView::Text("ev"@)) + cbor_text(
            JsonView::Text(frame.ev),
        ) + cbor_text(JsonView::Text("args"@)) + cbor_text(frame.args),
{
}

}
