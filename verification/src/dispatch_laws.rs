//! What an event comes to, said of the connections and the payload alone.

use crate::gateway::{
    after_connect, arrived, authed, conn_under, connected_frame, conns_ordered, decided,
    dispatched, identities, lemma_verbs, new_conn, outcome_frame, reach, selected, text_or_empty,
    with_user, ArrivalView, Conn, GatewayView, Inbound, Outcome, StepView,
};
use crate::gateway_laws::broadcast_reaches_exactly;
use crate::identity::{
    account_named, bound, bound_user, enrol_answer, enrolled, hash_of, login_answer, name_place,
    names_unique, next_account, next_device, password_check, signup_outcome, AccountErrorView,
    AccountView, Device, RegistryView,
};
use crate::json::{field_of, json_view, JsonView};
use crate::protocol::{decoded, Codec, FrameView};
use crate::table::{journaled, lemma_journaled, ordered, row_under, watermark};
use vstd::prelude::*;
use vstd::utf8::encode_utf8;

verus! {

/// The value is an object with exactly these two fields.
pub open spec fn two_fields(
    value: JsonView,
    k1: Seq<char>,
    v1: JsonView,
    k2: Seq<char>,
    v2: JsonView,
) -> bool {
    value matches JsonView::Object(fields) && fields.dom() =~= set![k1, k2] && fields[k1] == v1
        && fields[k2] == v2
}

/// The value is an object with exactly this field.
pub open spec fn one_field(value: JsonView, k: Seq<char>, v: JsonView) -> bool {
    value matches JsonView::Object(fields) && fields.dom() =~= set![k] && fields[k] == v
}

/// The value is an object that holds a text under a key.
pub open spec fn holds_text(value: JsonView, key: Seq<char>, text: Seq<char>) -> bool {
    value matches JsonView::Object(fields) && fields.dom().contains(key) && fields[key]
        == JsonView::Text(text)
}

/// The connection under an id, by its place in the table.
proof fn lemma_conn_at(conns: Seq<Conn>, next_id: u64, i: int)
    requires
        conns_ordered(conns, next_id),
        0 <= i < conns.len(),
    ensures
        conn_under(conns, conns[i].id) == Some(conns[i]),
        reach(conns, conns[i].id) == seq![conns[i].id],
    decreases conns.len(),
{
    if i > 0 {
        let rest = conns.skip(1);
        assert forall|a: int, b: int| 0 <= a < b < rest.len() implies (#[trigger] rest[a]).id < (
        #[trigger] rest[b]).id by {
            assert(rest[a] == conns[a + 1] && rest[b] == conns[b + 1]);
        }
        assert forall|a: int| 0 <= a < rest.len() implies (#[trigger] rest[a]).id < next_id by {
            assert(rest[a] == conns[a + 1]);
        }
        assert(conns[0].id < conns[i].id);
        lemma_conn_at(rest, next_id, i - 1);
        assert(rest[i - 1] == conns[i]);
    }
}

/// No connection under an id is found where none has it.
proof fn lemma_conn_gone(conns: Seq<Conn>, id: u64)
    requires
        forall|i: int| 0 <= i < conns.len() ==> (#[trigger] conns[i]).id != id,
    ensures
        conn_under(conns, id) is None,
        reach(conns, id) == Seq::<u64>::empty(),
        identities(conns, id) == (0u64, 0u64),
    decreases conns.len(),
{
    if conns.len() > 0 {
        assert(conns[0].id != id);
        let rest = conns.skip(1);
        assert forall|i: int| 0 <= i < rest.len() implies (#[trigger] rest[i]).id != id by {
            assert(rest[i] == conns[i + 1]);
        }
        lemma_conn_gone(rest, id);
    }
}

/// The payload of a call: an object of the sender, which is a device and its
/// user or null, and of the arguments.
pub open spec fn payload_shows(payload: JsonView, device: u64, user: u64, args: JsonView) -> bool {
    payload matches JsonView::Object(fields) && {
        &&& fields.dom() =~= set!["sender"@, "args"@]
        &&& field_of(payload, "args"@) == Some(args)
        &&& fields["args"@] == args
        &&& two_fields(
            fields["sender"@],
            "device"@,
            JsonView::Uint(device),
            "user"@,
            if user == 0 {
                JsonView::Null
            } else {
                JsonView::Uint(user)
            },
        )
        &&& field_of(fields["sender"@], "device"@) == Some(JsonView::Uint(device))
        &&& user != 0 ==> field_of(fields["sender"@], "user"@) == Some(JsonView::Uint(user))
        &&& user == 0 ==> field_of(fields["sender"@], "user"@) == Some(JsonView::Null)
    }
}

proof fn lemma_payload(device: u64, user: u64, args: JsonView)
    ensures
        payload_shows(crate::gateway::envelope(device, user, args), device, user, args),
{
    reveal_strlit("sender");
    reveal_strlit("args");
    reveal_strlit("device");
    reveal_strlit("user");
    assert("sender"@.len() != "args"@.len());
    assert("device"@.len() != "user"@.len());
}

/// An event that is none of the gateway's own words becomes a call exactly
/// where the connection it came on has a user. The call is of the actor that
/// the event names, for that connection, and its payload shows the device and
/// the user of that very connection, and the arguments as they were sent.
/// Without a user the event is looked up first, with the device of the
/// connection. Nothing changes in either case.
pub proof fn events_become_calls_of_their_sender(
    s: GatewayView,
    i: int,
    frame: FrameView,
    after: GatewayView,
    step: StepView,
)
    requires
        conns_ordered(s.conns, s.next_id),
        0 <= i < s.conns.len(),
        dispatched(s, s.conns[i].id, frame, after, step),
        frame.ev != "signup"@ && frame.ev != "login"@ && frame.ev != "broadcast"@ && frame.ev
            != "ping"@,
    ensures
        after == s,
        s.conns[i].user != 0 ==> {
            &&& step matches StepView::Invoke(to, actor, instance, payload)
            &&& to == s.conns[i].id
            &&& actor == frame.ev
            &&& instance == "ws"@
            &&& payload_shows(payload, s.conns[i].device, s.conns[i].user, frame.args)
        },
        s.conns[i].user == 0 ==> step == StepView::Inspect(
            s.conns[i].id,
            s.conns[i].device,
            frame,
        ),
{
    lemma_verbs();
    lemma_conn_at(s.conns, s.next_id, i);
    lemma_payload(s.conns[i].device, s.conns[i].user, frame.args);
}

/// Only an event that is none of the gateway's own words becomes a call, and
/// only on a connection with a user; its payload shows that connection.
pub proof fn calls_are_made_for_users_only(
    s: GatewayView,
    id: u64,
    frame: FrameView,
    after: GatewayView,
    step: StepView,
)
    requires
        conns_ordered(s.conns, s.next_id),
        dispatched(s, id, frame, after, step),
        step is Invoke,
    ensures
        frame.ev != "signup"@ && frame.ev != "login"@ && frame.ev != "broadcast"@ && frame.ev
            != "ping"@,
        exists|i: int|
            0 <= i < s.conns.len() && (#[trigger] s.conns[i]).id == id && s.conns[i].user != 0
                && payload_shows(step->Invoke_3, s.conns[i].device, s.conns[i].user, frame.args),
{
    lemma_verbs();
    if forall|i: int| 0 <= i < s.conns.len() ==> (#[trigger] s.conns[i]).id != id {
        lemma_conn_gone(s.conns, id);
    } else {
        let i = choose|i: int| 0 <= i < s.conns.len() && (#[trigger] s.conns[i]).id == id;
        lemma_conn_at(s.conns, s.next_id, i);
        events_become_calls_of_their_sender(s, i, frame, after, step);
    }
}

/// The interface has an `auth` block that names the event.
pub open spec fn declares(schema: Option<JsonView>, ev: Seq<char>) -> bool {
    &&& schema matches Some(JsonView::Object(fields))
    &&& fields.dom().contains("auth"@)
    &&& fields["auth"@] matches JsonView::Object(auth)
    &&& auth.dom().contains(ev)
}

/// An event without a user whose actor declares it is refused with an error
/// to its sender, naming the event. Any other becomes a call of the actor it
/// names, whose payload shows the device, a null user and the arguments.
pub proof fn declarations_decide(
    conns: Seq<Conn>,
    id: u64,
    device: u64,
    frame: FrameView,
    schema: Option<JsonView>,
)
    ensures
        declares(schema, frame.ev) ==> {
            &&& decided(conns, id, device, frame, schema) matches StepView::Deliver(to, answer)
            &&& to == reach(conns, id)
            &&& answer.ev == "error"@
            &&& two_fields(
                answer.args,
                "ev"@,
                JsonView::Text(frame.ev),
                "message"@,
                JsonView::Text("authentication required"@),
            )
        },
        !declares(schema, frame.ev) ==> {
            &&& decided(conns, id, device, frame, schema) matches StepView::Invoke(
                to,
                actor,
                instance,
                payload,
            )
            &&& to == id
            &&& actor == frame.ev
            &&& instance == "ws"@
            &&& payload_shows(payload, device, 0, frame.args)
        },
{
    lemma_payload(device, 0, frame.args);
    lemma_error_fields();
}

proof fn lemma_error_fields()
    ensures
        "ev"@ != "message"@,
{
    reveal_strlit("ev");
    reveal_strlit("message");
    assert("ev"@.len() != "message"@.len());
}

/// A broadcast changes nothing and is delivered as it was sent. Where its
/// arguments say `"to": "auth"` it reaches exactly the connections with a
/// user; whatever else they say, or do not say, it reaches every connection.
/// Nobody is reached twice.
pub proof fn broadcasts_reach_their_audience(
    s: GatewayView,
    id: u64,
    frame: FrameView,
    after: GatewayView,
    step: StepView,
    x: u64,
)
    requires
        conns_ordered(s.conns, s.next_id),
        frame.ev == "broadcast"@,
        dispatched(s, id, frame, after, step),
    ensures
        after == s,
        step matches StepView::Deliver(to, sent) && sent == frame && to.no_duplicates() && (
        to.contains(x) <==> exists|i: int|
            0 <= i < s.conns.len() && (#[trigger] s.conns[i]).id == x && (holds_text(
                frame.args,
                "to"@,
                "auth"@,
            ) ==> s.conns[i].user != 0)),
{
    lemma_verbs();
    broadcast_reaches_exactly(s.conns, s.next_id, true, x);
    broadcast_reaches_exactly(s.conns, s.next_id, false, x);
    let auth_only = holds_text(frame.args, "to"@, "auth"@);
    assert(step == StepView::Deliver(selected(s.conns, auth_only), frame));
    if selected(s.conns, auth_only).contains(x) {
        let i = choose|i: int|
            0 <= i < s.conns.len() && (#[trigger] s.conns[i]).id == x && (!auth_only
                || s.conns[i].user != 0);
        assert(s.conns[i].id == x);
    }
}

/// A ping is answered to its sender alone, and changes nothing. A sender that
/// is gone is not answered.
pub proof fn pings_are_answered(
    s: GatewayView,
    id: u64,
    frame: FrameView,
    after: GatewayView,
    step: StepView,
)
    requires
        conns_ordered(s.conns, s.next_id),
        frame.ev == "ping"@,
        dispatched(s, id, frame, after, step),
    ensures
        after == s,
        step matches StepView::Deliver(to, answer) && {
            &&& forall|x: u64| #[trigger]
                to.contains(x) <==> x == id && exists|i: int|
                    0 <= i < s.conns.len() && (#[trigger] s.conns[i]).id == id
            &&& answer.ev == "ping.result"@
            &&& one_field(answer.args, "pong"@, JsonView::Bool(true))
        },
{
    lemma_verbs();
    lemma_reach(s.conns, s.next_id, id);
    reveal_strlit("ping");
    reveal_strlit(".result");
    reveal_strlit("ping.result");
    assert("ping"@ + ".result"@ =~= "ping.result"@);
}

/// A reply reaches its connection, and nobody where that is gone.
proof fn lemma_reach(conns: Seq<Conn>, next_id: u64, id: u64)
    requires
        conns_ordered(conns, next_id),
    ensures
        forall|x: u64| #[trigger]
            reach(conns, id).contains(x) <==> x == id && exists|i: int|
                0 <= i < conns.len() && (#[trigger] conns[i]).id == id,
{
    if exists|i: int| 0 <= i < conns.len() && (#[trigger] conns[i]).id == id {
        let i = choose|i: int| 0 <= i < conns.len() && (#[trigger] conns[i]).id == id;
        lemma_conn_at(conns, next_id, i);
        assert(seq![id][0] == id);
    } else {
        lemma_conn_gone(conns, id);
    }
}

/// What a call came to is told to its sender: a result under the event's name
/// with `.result` behind it, or an error that names the event and says why.
pub proof fn outcomes_are_told(ev: Seq<char>, value: serde_json::Value, message: String)
    ensures
        outcome_frame(ev, Outcome::Done(value)).ev == ev + ".result"@,
        outcome_frame(ev, Outcome::Done(value)).args == json_view(value),
        outcome_frame(ev, Outcome::Failed(message)).ev == "error"@,
        two_fields(
            outcome_frame(ev, Outcome::Failed(message)).args,
            "ev"@,
            JsonView::Text(ev),
            "message"@,
            JsonView::Text(message@),
        ),
        outcome_frame(ev, Outcome::Pending).ev == "error"@,
        two_fields(
            outcome_frame(ev, Outcome::Pending).args,
            "ev"@,
            JsonView::Text(ev),
            "message"@,
            JsonView::Text("cold call not supported on the echo plane"@),
        ),
{
    lemma_error_fields();
}

/// A message whose bytes are a frame is an event; one whose bytes are not is
/// answered to its sender with the reason. A text message counts as the bytes
/// of its text. Control messages are passed over.
pub proof fn messages_are_events_or_answered(
    conns: Seq<Conn>,
    id: u64,
    codec: Codec,
    bytes: Vec<u8>,
    text: String,
)
    ensures
        decoded(codec, bytes@) matches Ok(frame) ==> arrived(
            conns,
            id,
            codec,
            Inbound::Binary(bytes),
        ) == ArrivalView::Event(frame),
        decoded(codec, bytes@) matches Err(why) ==> (arrived(
            conns,
            id,
            codec,
            Inbound::Binary(bytes),
        ) matches ArrivalView::Reply(StepView::Deliver(to, answer)) && to == reach(conns, id)
            && answer.ev == "error"@ && one_field(
            answer.args,
            "message"@,
            JsonView::Text("protocol error: "@ + why),
        )),
        bytes@ == encode_utf8(text@) ==> arrived(conns, id, codec, Inbound::Text(text)) == arrived(
            conns,
            id,
            codec,
            Inbound::Binary(bytes),
        ),
        arrived(conns, id, codec, Inbound::Other) == ArrivalView::Skip,
        arrived(conns, id, codec, Inbound::Close) == ArrivalView::Stop,
{
}

/// A connect adds one connection, under an id that none has, and leaves the
/// others. It is on the echoed device, with the user that device is bound to,
/// where that has a row; else on a new device, which gets a row, and without
/// a user. The answer tells the device, and the user or null.
pub proof fn connects_are_answered(s: GatewayView, echoed: Option<u64>, row: Device)
    requires
        conns_ordered(s.conns, s.next_id),
        s.next_id < u64::MAX,
        ordered(s.registry.devices.rows),
        watermark(s.registry.devices.rows) < u64::MAX,
    ensures
        ({
            let conn = new_conn(s, echoed);
            let after = after_connect(s, echoed);
            let known = echoed matches Some(d) && row_under(s.registry.devices.rows, d) is Some;
            &&& after.conns == s.conns.push(conn)
            &&& conn.id == s.next_id && after.next_id == s.next_id + 1
            &&& conns_ordered(after.conns, after.next_id)
            &&& after.posture == s.posture
            &&& after.registry.accounts == s.registry.accounts
            &&& after.registry.nodes == s.registry.nodes
            &&& (echoed matches Some(d) && row_under(s.registry.devices.rows, d) == Some(row)) ==> (
            conn.device == echoed->Some_0 && conn.user == row.user_id && after.registry
                == s.registry)
            &&& !known ==> conn.user == 0 && row_under(s.registry.devices.rows, conn.device) is None
                && row_under(after.registry.devices.rows, conn.device) == Some(
                Device { id: conn.device, user_id: 0, global: 0 },
            )
            &&& !known ==> forall|i: int|
                0 <= i < s.registry.devices.rows.len() ==> (
                #[trigger] s.registry.devices.rows[i]).id < conn.device
            &&& connected_frame(conn.device, conn.user).ev == "connected"@
            &&& two_fields(
                connected_frame(conn.device, conn.user).args,
                "device_id"@,
                JsonView::Uint(conn.device),
                "user_id"@,
                if conn.user == 0 {
                    JsonView::Null
                } else {
                    JsonView::Uint(conn.user)
                },
            )
        }),
{
    reveal_strlit("device_id");
    reveal_strlit("user_id");
    assert("device_id"@.len() != "user_id"@.len());
    crate::identity::new_device_is_anonymous(s.registry.devices, 0);
    let rows = s.registry.devices.rows;
    assert forall|i: int| 0 <= i < rows.len() implies (#[trigger] rows[i]).id <= watermark(
        rows,
    ) by {
        crate::table::lemma_watermark(rows, i);
    }
}

/// The text under a key of the arguments, which is empty where there is none.
pub open spec fn reads_text(value: JsonView, key: Seq<char>, text: Seq<char>) -> bool {
    holds_text(value, key, text) || (text.len() == 0 && forall|other: Seq<char>|
        !#[trigger] holds_text(value, key, other))
}

proof fn lemma_reads_text(value: JsonView, key: Seq<char>, text: Seq<char>)
    requires
        reads_text(value, key, text),
    ensures
        text_or_empty(value, key) == text,
{
    if let JsonView::Object(fields) = value {
        if fields.dom().contains(key) {
            if let JsonView::Text(other) = fields[key] {
                assert(holds_text(value, key, other));
            }
        }
    }
    assert(text_or_empty(value, key) =~= text);
}

/// Who is logged in on one connection has changed, and nothing else of the
/// connections.
pub open spec fn one_logged_in(before: Seq<Conn>, after: Seq<Conn>, i: int, user: u64) -> bool {
    &&& after.len() == before.len()
    &&& forall|j: int|
        0 <= j < before.len() ==> #[trigger] after[j] == Conn {
            id: before[j].id,
            device: before[j].device,
            user: if j == i {
                user
            } else {
                before[j].user
            },
        }
}

/// One device is bound to a user, where it has a row, and nothing else of the
/// devices has changed.
pub open spec fn one_bound(before: Seq<Device>, after: Seq<Device>, device: u64, user: u64) -> bool {
    &&& after.len() == before.len()
    &&& forall|j: int|
        0 <= j < before.len() ==> #[trigger] after[j] == Device {
            id: before[j].id,
            user_id: if before[j].id == device {
                user
            } else {
                before[j].user_id
            },
            global: before[j].global,
        }
}

proof fn lemma_one_bound(devices: crate::table::TableView<Device>, device: u64, user: u64)
    requires
        ordered(devices.rows),
    ensures
        one_bound(devices.rows, bound(devices, device, user).rows, device, user),
{
    let rows = devices.rows;
    if exists|j: int| 0 <= j < rows.len() && (#[trigger] rows[j]).id == device {
        let j = choose|j: int| 0 <= j < rows.len() && (#[trigger] rows[j]).id == device;
        crate::table::lemma_place(rows, device, j);
        let row = Device { user_id: user, ..rows[j] };
        crate::table::lemma_put_one(rows, row);
        crate::table::lemma_put_replaces(rows, row, j);
    } else {
        crate::table::lemma_no_row(rows, device);
    }
}

proof fn lemma_logged_in(conns: Seq<Conn>, next_id: u64, i: int, user: u64)
    requires
        conns_ordered(conns, next_id),
        0 <= i < conns.len(),
    ensures
        one_logged_in(conns, with_user(conns, conns[i].id, user), i, user),
{
    assert forall|j: int| 0 <= j < conns.len() && j != i implies (#[trigger] conns[j]).id
        != conns[i].id by {
        if j < i {
            assert(conns[j].id < conns[i].id);
        } else {
            assert(conns[i].id < conns[j].id);
        }
    }
}

/// The answer says that a user logged in, under the event's own name.
pub open spec fn says_user(answer: FrameView, ev: Seq<char>, user: u64) -> bool {
    answer.ev == ev + ".result"@ && one_field(answer.args, "user_id"@, JsonView::Uint(user))
}

/// The answer says that an event failed, and why.
pub open spec fn says_error(answer: FrameView, ev: Seq<char>, message: Seq<char>) -> bool {
    answer.ev == "error"@ && two_fields(
        answer.args,
        "ev"@,
        JsonView::Text(ev),
        "message"@,
        JsonView::Text(message),
    )
}

proof fn lemma_account_at(rows: Seq<AccountView>, k: int)
    requires
        names_unique(rows),
        0 <= k < rows.len(),
    ensures
        name_place(rows, rows[k].username) == k,
        account_named(rows, rows[k].username) == Some(rows[k]),
    decreases rows.len(),
{
    if k > 0 {
        let rest = rows.skip(1);
        assert forall|a: int, b: int|
            0 <= a < rest.len() && 0 <= b < rest.len() && (#[trigger] rest[a]).username == (
            #[trigger] rest[b]).username implies a == b by {
            assert(rest[a] == rows[a + 1] && rest[b] == rows[b + 1]);
        }
        assert(rows[0].username != rows[k].username);
        lemma_account_at(rest, k - 1);
        assert(rest[k - 1] == rows[k]);
    }
}

proof fn lemma_no_account(rows: Seq<AccountView>, username: Seq<char>)
    requires
        forall|k: int| 0 <= k < rows.len() ==> (#[trigger] rows[k]).username != username,
    ensures
        account_named(rows, username) is None,
        name_place(rows, username) == rows.len(),
    decreases rows.len(),
{
    if rows.len() > 0 {
        assert(rows[0].username != username);
        let rest = rows.skip(1);
        assert forall|k: int| 0 <= k < rest.len() implies (#[trigger] rest[k]).username
            != username by {
            assert(rest[k] == rows[k + 1]);
        }
        lemma_no_account(rest, username);
    }
}

/// A login with the username of an account is decided by the check of the
/// password against that account's hash. Where it matches, the sender is told
/// the account's id, which becomes the user of that connection alone and of
/// that connection's device alone. Where it does not, or the name belongs to
/// no account, the sender is told the same, and nothing changes. No account
/// ever changes.
pub proof fn logins_are_decided_by_the_password(
    s: GatewayView,
    i: int,
    frame: FrameView,
    after: GatewayView,
    step: StepView,
    username: Seq<char>,
    password: Seq<char>,
    k: int,
)
    requires
        conns_ordered(s.conns, s.next_id),
        ordered(s.registry.devices.rows),
        names_unique(s.registry.accounts.rows),
        0 <= i < s.conns.len(),
        frame.ev == "login"@,
        reads_text(frame.args, "username"@, username),
        reads_text(frame.args, "password"@, password),
        dispatched(s, s.conns[i].id, frame, after, step),
    ensures
        after.registry.accounts == s.registry.accounts,
        after.registry.nodes == s.registry.nodes,
        after.next_id == s.next_id && after.posture == s.posture,
        step matches StepView::Deliver(to, answer) && to == seq![s.conns[i].id] && ({
            let rows = s.registry.accounts.rows;
            &&& 0 <= k < rows.len() && rows[k].username == username ==> match password_check(
                password,
                rows[k].password_hash,
            ) {
                Ok(true) => {
                    &&& says_user(answer, "login"@, rows[k].id)
                    &&& one_logged_in(s.conns, after.conns, i, rows[k].id)
                    &&& one_bound(
                        s.registry.devices.rows,
                        after.registry.devices.rows,
                        s.conns[i].device,
                        rows[k].id,
                    )
                },
                Ok(false) => says_error(answer, "login"@, "invalid credentials"@) && after == s,
                Err(why) => says_error(answer, "login"@, "stored hash: "@ + why) && after == s,
            }
            &&& (forall|j: int| 0 <= j < rows.len() ==> (#[trigger] rows[j]).username != username)
                ==> says_error(answer, "login"@, "invalid credentials"@) && after == s
        }),
{
    lemma_verbs();
    lemma_error_fields();
    lemma_reads_text(frame.args, "username"@, username);
    lemma_reads_text(frame.args, "password"@, password);
    lemma_conn_at(s.conns, s.next_id, i);
    let rows = s.registry.accounts.rows;
    if 0 <= k < rows.len() && rows[k].username == username {
        lemma_account_at(rows, k);
        lemma_one_bound(s.registry.devices, s.conns[i].device, rows[k].id);
        lemma_logged_in(s.conns, s.next_id, i, rows[k].id);
    }
    if forall|j: int| 0 <= j < rows.len() ==> (#[trigger] rows[j]).username != username {
        lemma_no_account(rows, username);
    }
}

/// A signup without a username or a password is refused, and so is one with a
/// password that is too long to hash, or with a username that an account has.
/// Otherwise one account is added behind the others, with an id above theirs,
/// the username and the nickname as they were sent, and a hash that the
/// password matches. The sender is told its id, which becomes the user of that
/// connection alone and of that connection's device alone. A refusal changes
/// nothing.
pub proof fn signups_add_one_account(
    s: GatewayView,
    i: int,
    frame: FrameView,
    after: GatewayView,
    step: StepView,
    username: Seq<char>,
    nickname: Seq<char>,
    password: Seq<char>,
)
    requires
        conns_ordered(s.conns, s.next_id),
        ordered(s.registry.devices.rows),
        ordered(s.registry.accounts.rows),
        watermark(s.registry.accounts.rows) < u64::MAX,
        0 <= i < s.conns.len(),
        frame.ev == "signup"@,
        reads_text(frame.args, "username"@, username),
        reads_text(frame.args, "nickname"@, nickname),
        reads_text(frame.args, "password"@, password),
        dispatched(s, s.conns[i].id, frame, after, step),
    ensures
        after.registry.nodes == s.registry.nodes,
        after.next_id == s.next_id && after.posture == s.posture,
        step matches StepView::Deliver(to, answer) && to == seq![s.conns[i].id] && ({
            let rows = s.registry.accounts.rows;
            let taken = exists|k: int| 0 <= k < rows.len() && (#[trigger] rows[k]).username
                == username;
            let hashable = encode_utf8(password).len() <= 0xFFFF_FFFF;
            &&& username.len() == 0 || password.len() == 0 ==> says_error(
                answer,
                "signup"@,
                "username and password are required"@,
            ) && after == s
            &&& username.len() > 0 && password.len() > 0 && !hashable ==> says_error(
                answer,
                "signup"@,
                "hash: invalid password"@,
            ) && after == s
            &&& username.len() > 0 && password.len() > 0 && hashable && taken ==> says_error(
                answer,
                "signup"@,
                "username taken"@,
            ) && after == s
            &&& username.len() > 0 && password.len() > 0 && hashable && !taken ==> {
                let all = after.registry.accounts.rows;
                let new = all.last();
                &&& all.len() == rows.len() + 1
                &&& all.drop_last() == rows
                &&& new.username == username
                &&& new.nickname == nickname
                &&& new.global == 0
                &&& password_check(password, new.password_hash) == Ok::<bool, Seq<char>>(true)
                &&& forall|k: int| 0 <= k < rows.len() ==> (#[trigger] rows[k]).id < new.id
                &&& says_user(answer, "signup"@, new.id)
                &&& one_logged_in(s.conns, after.conns, i, new.id)
                &&& one_bound(
                    s.registry.devices.rows,
                    after.registry.devices.rows,
                    s.conns[i].device,
                    new.id,
                )
            }
        }),
{
    lemma_verbs();
    lemma_error_fields();
    lemma_reads_text(frame.args, "username"@, username);
    lemma_reads_text(frame.args, "nickname"@, nickname);
    lemma_reads_text(frame.args, "password"@, password);
    lemma_conn_at(s.conns, s.next_id, i);
    reveal_strlit("hash: ");
    reveal_strlit("invalid password");
    reveal_strlit("hash: invalid password");
    assert("hash: "@ + "invalid password"@ =~= "hash: invalid password"@);
    let rows = s.registry.accounts.rows;
    let device = s.conns[i].device;
    let answer = choose|answer: Result<u64, AccountErrorView>|
        #[trigger] signup_outcome(
            s.registry,
            username,
            nickname,
            password,
            device,
            answer,
            after.registry,
        ) && (after, step) == crate::gateway::authed(
            s,
            after.registry,
            s.conns[i].id,
            frame.ev,
            answer,
        );
    if exists|k: int| 0 <= k < rows.len() && (#[trigger] rows[k]).username == username {
        lemma_taken(rows, username);
    } else {
        lemma_no_account(rows, username);
        if username.len() > 0 && password.len() > 0 && encode_utf8(password).len() <= 0xFFFF_FFFF {
            let hash = choose|hash: Result<Seq<char>, Seq<char>>|
                #[trigger] hash_of(password, hash) && answer == enrol_answer(rows, username, hash)
                    && after.registry == enrolled(
                    s.registry,
                    username,
                    nickname,
                    hash,
                    device,
                );
            let row = next_account(rows, username, nickname, hash->Ok_0);
            crate::table::lemma_put_one(rows, row);
            crate::table::lemma_put_appends(rows, row);
            assert(rows.push(row).drop_last() =~= rows);
            assert forall|k: int| 0 <= k < rows.len() implies (#[trigger] rows[k]).id < row.id by {
                crate::table::lemma_watermark(rows, k);
            }
            lemma_one_bound(s.registry.devices, device, row.id);
            lemma_logged_in(s.conns, s.next_id, i, row.id);
        }
    }
}

proof fn lemma_taken(rows: Seq<AccountView>, username: Seq<char>)
    requires
        exists|k: int| 0 <= k < rows.len() && (#[trigger] rows[k]).username == username,
    ensures
        account_named(rows, username) is Some,
        0 <= name_place(rows, username) < rows.len(),
    decreases rows.len(),
{
    let k = choose|k: int| 0 <= k < rows.len() && (#[trigger] rows[k]).username == username;
    if rows[0].username != username {
        let rest = rows.skip(1);
        assert(rest[k - 1] == rows[k]);
        lemma_taken(rest, username);
    }
}

/// A connection is known by the device and the user it has; one that is gone
/// has neither. A reply to a connection reaches it alone, and nobody once it
/// is gone.
pub proof fn connections_are_told_apart(conns: Seq<Conn>, next_id: u64, i: int, gone: u64)
    requires
        conns_ordered(conns, next_id),
        0 <= i < conns.len(),
        forall|j: int| 0 <= j < conns.len() ==> (#[trigger] conns[j]).id != gone,
    ensures
        identities(conns, conns[i].id) == (conns[i].device, conns[i].user),
        identities(conns, gone) == (0u64, 0u64),
        reach(conns, conns[i].id) == seq![conns[i].id],
        reach(conns, gone) == Seq::<u64>::empty(),
{
    lemma_conn_at(conns, next_id, i);
    lemma_conn_gone(conns, gone);
}

/// The outcome of a signup or a login that was awaited makes its user that of
/// the connection, and of no other, and tells the sender; a refusal changes
/// nothing and is told as an error of the event. The registry stays.
pub proof fn awaited_outcomes_are_told(s: GatewayView, i: int, ev: Seq<char>, user: u64)
    requires
        conns_ordered(s.conns, s.next_id),
        0 <= i < s.conns.len(),
    ensures
        ({
            let (after, step) = authed(s, s.registry, s.conns[i].id, ev, Ok(user));
            &&& one_logged_in(s.conns, after.conns, i, user)
            &&& after.registry == s.registry && after.posture == s.posture && after.next_id
                == s.next_id
            &&& step matches StepView::Deliver(to, answer)
            &&& to == seq![s.conns[i].id]
            &&& says_user(answer, ev, user)
        }),
        forall|error: AccountErrorView|
            {
                let (after, step) = #[trigger] authed(
                    s,
                    s.registry,
                    s.conns[i].id,
                    ev,
                    Err(error),
                );
                &&& after == s
                &&& step matches StepView::Deliver(to, answer)
                &&& to == seq![s.conns[i].id]
                &&& answer.ev == "error"@
                &&& error is FieldsRequired ==> says_error(
                    answer,
                    ev,
                    "username and password are required"@,
                )
                &&& error is UsernameTaken ==> says_error(answer, ev, "username taken"@)
                &&& error is InvalidCredentials ==> says_error(answer, ev, "invalid credentials"@)
                &&& error matches AccountErrorView::Hashing(why) ==> says_error(
                    answer,
                    ev,
                    "hash: "@ + why,
                )
                &&& error matches AccountErrorView::StoredHash(why) ==> says_error(
                    answer,
                    ev,
                    "stored hash: "@ + why,
                )
            },
{
    lemma_error_fields();
    lemma_conn_at(s.conns, s.next_id, i);
    lemma_logged_in(s.conns, s.next_id, i, user);
}

/// A device is bound to the user in its row, and to nobody where the row says
/// zero or there is none.
pub proof fn bindings_are_read_off_the_rows(rows: Seq<Device>, i: int, unknown: u64)
    requires
        ordered(rows),
        0 <= i < rows.len(),
        forall|j: int| 0 <= j < rows.len() ==> (#[trigger] rows[j]).id != unknown,
    ensures
        rows[i].user_id != 0 ==> bound_user(rows, rows[i].id) == Some(rows[i].user_id),
        rows[i].user_id == 0 ==> bound_user(rows, rows[i].id) is None,
        bound_user(rows, unknown) is None,
{
    crate::table::lemma_place(rows, rows[i].id, i);
    crate::table::lemma_no_row(rows, unknown);
}

/// An enrolment whose password could not be hashed is refused with the cause,
/// whoever asks, and changes nothing.
pub proof fn unhashed_enrolments_are_refused(
    s: RegistryView,
    username: Seq<char>,
    nickname: Seq<char>,
    why: Seq<char>,
    device: u64,
)
    ensures
        enrol_answer(s.accounts.rows, username, Err(why)) == Err::<u64, AccountErrorView>(
            AccountErrorView::Hashing(why),
        ),
        enrolled(s, username, nickname, Err(why), device) == s,
{
}

/// What an event or a connect writes is journaled, table by table.
pub proof fn events_are_journaled(
    s: GatewayView,
    id: u64,
    frame: FrameView,
    after: GatewayView,
    step: StepView,
    echoed: Option<u64>,
)
    requires
        dispatched(s, id, frame, after, step),
    ensures
        journaled(s.registry.accounts, after.registry.accounts),
        journaled(s.registry.devices, after.registry.devices),
        journaled(s.registry.nodes, after.registry.nodes),
        journaled(s.registry.accounts, after_connect(s, echoed).registry.accounts),
        journaled(s.registry.devices, after_connect(s, echoed).registry.devices),
        journaled(s.registry.nodes, after_connect(s, echoed).registry.nodes),
{
    let devices = s.registry.devices;
    lemma_verbs();
    lemma_journaled(s.registry.accounts, Seq::empty());
    lemma_journaled(s.registry.nodes, Seq::empty());
    lemma_journaled(devices, seq![next_device(devices.rows)]);
    let (device, _) = identities(s.conns, id);
    let username = text_or_empty(frame.args, "username"@);
    let password = text_or_empty(frame.args, "password"@);
    let nickname = text_or_empty(frame.args, "nickname"@);
    if frame.ev == "signup"@ {
        if username.len() > 0 && password.len() > 0 {
            let hash = choose|hash: Result<Seq<char>, Seq<char>>|
                #[trigger] hash_of(password, hash) && after.registry == enrolled(
                    s.registry,
                    username,
                    nickname,
                    hash,
                    device,
                );
            if let Ok(h) = hash {
                let row = next_account(s.registry.accounts.rows, username, nickname, h);
                lemma_journaled(s.registry.accounts, seq![row]);
                lemma_bound_journaled(devices, device, row.id);
            }
        }
    } else if frame.ev == "login"@ {
        if let Ok(user) = login_answer(s.registry.accounts.rows, username, password) {
            lemma_bound_journaled(devices, device, user);
        }
    }
}

proof fn lemma_bound_journaled(devices: crate::table::TableView<Device>, device: u64, user: u64)
    ensures
        journaled(devices, bound(devices, device, user)),
{
    lemma_journaled(devices, Seq::empty());
    if let Some(row) = row_under(devices.rows, device) {
        lemma_journaled(devices, seq![Device { user_id: user, ..row }]);
    }
}

}
