//! What holds of the gateway as a whole, whatever its clients send.

use crate::gateway::{
    after_connect, arrived, auth_frame, authed, conn_under, conns_ordered, decided, dispatched,
    echo_known, envelope, identities, invocation, lemma_verbs, new_conn, reach, requires_auth, selected,
    text_or_empty, user_json, with_user, without, ArrivalView, Conn, GatewayView, Inbound, StepView,
};
use crate::identity::{
    account_named, binding_is_remembered, bound, bound_user, hashable, login_answer,
    new_device_is_anonymous, next_device, signup_outcome, AccountErrorView, Device,
    RegistryView,
};
use crate::json::{field_of, no_fields, JsonView};
use crate::protocol::{Codec, FrameView};
use crate::table::{
    lemma_put_one, ordered, row_under, watermark, written_row_is_read_back,
};
use vstd::prelude::*;

verus! {

/// The id is that of a live connection which a broadcast is meant for.
pub open spec fn meant(conns: Seq<Conn>, auth_only: bool, id: u64) -> bool {
    exists|i: int|
        0 <= i < conns.len() && (#[trigger] conns[i]).id == id && (!auth_only || conns[i].user != 0)
}

/// A broadcast reaches every connection it is meant for, nobody else, and
/// nobody twice.
pub proof fn broadcast_reaches_exactly(conns: Seq<Conn>, next_id: u64, auth_only: bool, id: u64)
    requires
        conns_ordered(conns, next_id),
    ensures
        selected(conns, auth_only).contains(id) <==> meant(conns, auth_only, id),
        selected(conns, auth_only).no_duplicates(),
    decreases conns.len(),
{
    if conns.len() > 0 {
        let init = conns.drop_last();
        let last = conns.last();
        let before = selected(init, auth_only);
        let all = selected(conns, auth_only);
        broadcast_reaches_exactly(init, next_id, auth_only, id);
        broadcast_reaches_exactly(init, next_id, auth_only, last.id);
        assert(!meant(init, auth_only, last.id)) by {
            if meant(init, auth_only, last.id) {
                let i = choose|i: int|
                    0 <= i < init.len() && (#[trigger] init[i]).id == last.id && (!auth_only
                        || init[i].user != 0);
                assert(conns[i].id < conns[conns.len() - 1].id);
            }
        }
        if meant(init, auth_only, id) {
            let i = choose|i: int|
                0 <= i < init.len() && (#[trigger] init[i]).id == id && (!auth_only || init[i].user
                    != 0);
            assert(conns[i].id == id);
        }
        if meant(conns, auth_only, id) {
            let i = choose|i: int|
                0 <= i < conns.len() && (#[trigger] conns[i]).id == id && (!auth_only
                    || conns[i].user != 0);
            if i < init.len() {
                assert(init[i].id == id);
            }
        }
        if !auth_only || last.user != 0 {
            assert(conns[conns.len() - 1].id == last.id);
            assert(all[all.len() - 1] == last.id);
            if before.contains(id) {
                let k = choose|k: int| 0 <= k < before.len() && before[k] == id;
                assert(all[k] == id);
            }
            if all.contains(id) && id != last.id {
                let k = choose|k: int| 0 <= k < all.len() && all[k] == id;
                assert(before[k] == id);
            }
            assert forall|i: int, j: int|
                0 <= i < all.len() && 0 <= j < all.len() && i != j implies all[i] != all[j] by {
                if i == before.len() {
                    assert(before.contains(before[j]));
                } else if j == before.len() {
                    assert(before.contains(before[i]));
                }
            }
        }
    }
}

/// An event that an actor declares to need a user never becomes a call while
/// the sender has none: it is looked up first, and then refused. An event
/// that is not declared is let through.
pub proof fn declared_event_needs_a_user(
    s: GatewayView,
    id: u64,
    frame: FrameView,
    after: GatewayView,
    step: StepView,
    schema: Option<JsonView>,
)
    requires
        dispatched(s, id, frame, after, step),
        identities(s.conns, id).1 == 0,
    ensures
        !(step is Invoke),
        step matches StepView::Inspect(to, device, event) ==> to == id && event == frame && (
        decided(after.conns, to, device, event, schema) is Invoke <==> !requires_auth(
            schema,
            frame.ev,
        )),
{
}

/// The sender in an envelope is what the gateway knows of the connection,
/// whatever the payload says; the payload arrives as it was sent.
pub proof fn sender_cannot_be_forged(device: u64, user: u64, args: JsonView)
    ensures
        field_of(envelope(device, user, args), "sender"@) == Some(
            JsonView::Object(
                no_fields().insert("device"@, JsonView::Uint(device)).insert(
                    "user"@,
                    user_json(user),
                ),
            ),
        ),
        field_of(envelope(device, user, args), "args"@) == Some(args),
{
    reveal_strlit("sender");
    reveal_strlit("args");
    assert("sender"@.len() != "args"@.len());
}

/// A call is made in the name of the connection that sent the event, and of
/// nobody else.
pub proof fn calls_carry_their_sender(
    s: GatewayView,
    id: u64,
    frame: FrameView,
    after: GatewayView,
    step: StepView,
)
    requires
        dispatched(s, id, frame, after, step),
        step is Invoke,
    ensures
        step == invocation(
            id,
            identities(s.conns, id).0,
            identities(s.conns, id).1,
            frame,
        ),
        after == s,
{
}

/// A connect that echoes a device with a row keeps the device, restores the
/// user it is bound to, nobody among them, and writes nothing.
pub proof fn reconnect_restores_the_binding(s: GatewayView, device: u64)
    requires
        row_under(s.registry.devices.rows, device) is Some,
    ensures
        new_conn(s, Some(device)).device == device,
        bound_user(s.registry.devices.rows, device) == if new_conn(s, Some(device)).user != 0 {
            Some(new_conn(s, Some(device)).user)
        } else {
            None
        },
        after_connect(s, Some(device)).registry == s.registry,
{
}

/// Any other connect gets a device that had no row before, bound to nobody:
/// a guessed id gains nothing.
pub proof fn guessed_device_gains_nothing(s: GatewayView, echoed: Option<u64>)
    requires
        ordered(s.registry.devices.rows),
        watermark(s.registry.devices.rows) < u64::MAX,
        echoed matches Some(device) ==> row_under(s.registry.devices.rows, device) is None,
    ensures
        ({
            let conn = new_conn(s, echoed);
            &&& conn.user == 0
            &&& row_under(s.registry.devices.rows, conn.device) is None
            &&& row_under(
                after_connect(s, echoed).registry.devices.rows,
                conn.device,
            ) == Some(next_device(s.registry.devices.rows))
        }),
{
    new_device_is_anonymous(s.registry.devices, 0);
}

/// A login is remembered: where a signup or a login is answered with a user,
/// a reconnect that echoes the device of the connection restores that user.
pub proof fn login_survives_a_reconnect(
    s: GatewayView,
    id: u64,
    frame: FrameView,
    after: GatewayView,
    conn: Conn,
    user: u64,
)
    requires
        ordered(s.registry.devices.rows),
        devices_known(s),
        frame.ev == "signup"@ || frame.ev == "login"@,
        dispatched(
            s,
            id,
            frame,
            after,
            StepView::Deliver(seq![id], auth_frame(frame.ev, Ok(user))),
        ),
        conn_under(s.conns, id) == Some(conn),
        user != 0,
    ensures
        conn_under(after.conns, id) == Some(Conn { user, ..conn }),
        new_conn(after, Some(conn.device)).device == conn.device,
        new_conn(after, Some(conn.device)).user == user,
{
    lemma_verbs();
    let username = text_or_empty(frame.args, "username"@);
    let password = text_or_empty(frame.args, "password"@);
    let nickname = text_or_empty(frame.args, "nickname"@);
    let answer = if frame.ev == "signup"@ {
        choose|answer: Result<u64, AccountErrorView>|
            #[trigger] signup_outcome(
                s.registry,
                username,
                nickname,
                password,
                conn.device,
                answer,
                after.registry,
            ) && (after, StepView::Deliver(seq![id], auth_frame(frame.ev, Ok(user)))) == authed(
                s,
                after.registry,
                id,
                frame.ev,
                answer,
            )
    } else {
        login_answer(s.registry.accounts.rows, username, password)
    };
    assert(auth_frame(frame.ev, answer) == auth_frame(frame.ev, Ok(user)));
    let i = lemma_conn_is_there(s.conns, id);
    assert(row_under(s.registry.devices.rows, s.conns[i].device) is Some);
    lemma_auth_frame(frame.ev, answer, user);
    assert(after.registry.devices == bound(s.registry.devices, conn.device, user));
    binding_is_remembered(s.registry.devices, conn.device, user, 0);
    lemma_with_user(s.conns, id, user, id);
}

/// A signup that names a user nobody has and a password that is not too long
/// succeeds: it is answered with the next account's id, which the connection
/// then has in its auth field.
pub proof fn signup_event_succeeds(
    s: GatewayView,
    id: u64,
    frame: FrameView,
    after: GatewayView,
    step: StepView,
)
    requires
        frame.ev == "signup"@,
        dispatched(s, id, frame, after, step),
        text_or_empty(frame.args, "username"@).len() > 0,
        text_or_empty(frame.args, "password"@).len() > 0,
        hashable(text_or_empty(frame.args, "password"@)),
        account_named(s.registry.accounts.rows, text_or_empty(frame.args, "username"@)) is None,
    ensures
        ({
            let user = (watermark(s.registry.accounts.rows) + 1) as u64;
            &&& step == StepView::Deliver(reach(s.conns, id), auth_frame(frame.ev, Ok(user)))
            &&& after.conns == with_user(s.conns, id, user)
        }),
{
}

/// The answer to a signup or a login tells who logged in.
proof fn lemma_auth_frame(ev: Seq<char>, answer: Result<u64, AccountErrorView>, user: u64)
    requires
        ev == "signup"@ || ev == "login"@,
        auth_frame(ev, answer) == auth_frame(ev, Ok(user)),
    ensures
        answer == Ok::<u64, AccountErrorView>(user),
{
    reveal_strlit("signup");
    reveal_strlit("login");
    reveal_strlit("error");
    reveal_strlit(".result");
    assert((ev + ".result"@).len() != "error"@.len());
    match answer {
        Ok(other) => {
            let fields = no_fields().insert("user_id"@, JsonView::Uint(other));
            assert(fields["user_id"@] == JsonView::Uint(other));
            let same = no_fields().insert("user_id"@, JsonView::Uint(user));
            assert(same["user_id"@] == JsonView::Uint(user));
        },
        Err(_) => {},
    }
}

/// A login writes the auth field of its own connection and nothing else in
/// the table; from then on a broadcast to the authenticated reaches it.
pub proof fn login_writes_one_field(
    s: GatewayView,
    registry: RegistryView,
    id: u64,
    ev: Seq<char>,
    user: u64,
    other: u64,
)
    requires
        conns_ordered(s.conns, s.next_id),
        user != 0,
    ensures
        ({
            let after = authed(s, registry, id, ev, Ok::<u64, AccountErrorView>(user)).0;
            &&& conns_ordered(after.conns, after.next_id)
            &&& conn_under(after.conns, id) == match conn_under(s.conns, id) {
                Some(conn) => Some(Conn { user, ..conn }),
                None => None,
            }
            &&& other != id ==> conn_under(after.conns, other) == conn_under(s.conns, other)
            &&& conn_under(s.conns, id) is Some ==> selected(after.conns, true).contains(id)
        }),
{
    let after = with_user(s.conns, id, user);
    lemma_with_user(s.conns, id, user, id);
    lemma_with_user(s.conns, id, user, other);
    broadcast_reaches_exactly(after, s.next_id, true, id);
    if conn_under(after, id) is Some {
        let i = lemma_conn_is_there(after, id);
        assert(after[i].id == id);
    }
}

proof fn lemma_with_user(conns: Seq<Conn>, id: u64, user: u64, other: u64)
    ensures
        conn_under(with_user(conns, id, user), other) == match conn_under(conns, other) {
            Some(conn) => Some(
                if other == id {
                    Conn { user, ..conn }
                } else {
                    conn
                },
            ),
            None => None,
        },
    decreases conns.len(),
{
    if conns.len() > 0 {
        assert(with_user(conns, id, user).skip(1) =~= with_user(conns.skip(1), id, user));
        lemma_with_user(conns.skip(1), id, user, other);
    }
}

proof fn lemma_conn_is_there(conns: Seq<Conn>, id: u64) -> (i: int)
    requires
        conn_under(conns, id) is Some,
    ensures
        0 <= i < conns.len(),
        conns[i] == conn_under(conns, id)->Some_0,
        conns[i].id == id,
    decreases conns.len(),
{
    if conns[0].id == id {
        0
    } else {
        let i = lemma_conn_is_there(conns.skip(1), id);
        assert(conns.skip(1)[i] == conns[i + 1]);
        i + 1
    }
}

/// No event opens or closes a connection, or moves one to another device: a
/// failure, a login and a broadcast alike leave the set of connections as it
/// is.
pub proof fn events_evict_nobody(
    s: GatewayView,
    id: u64,
    frame: FrameView,
    after: GatewayView,
    step: StepView,
    i: int,
)
    requires
        dispatched(s, id, frame, after, step),
    ensures
        after.conns.len() == s.conns.len(),
        0 <= i < s.conns.len() ==> after.conns[i].id == s.conns[i].id && after.conns[i].device
            == s.conns[i].device,
{
}

/// Nothing that a client sends ends its connection but its own close.
pub proof fn only_a_close_ends_a_connection(
    conns: Seq<Conn>,
    id: u64,
    codec: Codec,
    message: Inbound,
)
    ensures
        arrived(conns, id, codec, message) == ArrivalView::Stop <==> message is Close,
{
}

/// Taking connections off the table removes those and no others.
pub proof fn pruning_removes_exactly(conns: Seq<Conn>, gone: Seq<u64>, conn: Conn)
    ensures
        without(conns, gone).contains(conn) <==> conns.contains(conn) && !gone.contains(conn.id),
    decreases conns.len(),
{
    if conns.len() > 0 {
        let init = conns.drop_last();
        let before = without(init, gone);
        let all = without(conns, gone);
        pruning_removes_exactly(init, gone, conn);
        if init.contains(conn) {
            let i = choose|i: int| 0 <= i < init.len() && init[i] == conn;
            assert(conns[i] == conn);
        }
        if conns.contains(conn) && !init.contains(conn) {
            let i = choose|i: int| 0 <= i < conns.len() && conns[i] == conn;
            if i < init.len() {
                assert(init[i] == conn);
            }
            assert(conn == conns.last());
        }
        assert(conns[conns.len() - 1] == conns.last());
        if !gone.contains(conns.last().id) {
            assert(all[all.len() - 1] == conns.last());
            if before.contains(conn) {
                let k = choose|k: int| 0 <= k < before.len() && before[k] == conn;
                assert(all[k] == conn);
            }
            if all.contains(conn) && conn != conns.last() {
                let k = choose|k: int| 0 <= k < all.len() && all[k] == conn;
                assert(before[k] == conn);
            }
        }
    }
}

/// Every connection has a device with a row.
pub open spec fn devices_known(s: GatewayView) -> bool {
    forall|i: int|
        0 <= i < s.conns.len() ==> row_under(
            s.registry.devices.rows,
            (#[trigger] s.conns[i]).device,
        ) is Some
}

/// A gateway without connections has known devices only, and connects,
/// events and the taking off of connections keep it so: whoever logs in has
/// a device to be remembered by.
pub proof fn connections_have_their_devices(
    s: GatewayView,
    echoed: Option<u64>,
    id: u64,
    frame: FrameView,
    after: GatewayView,
    step: StepView,
    gone: Seq<u64>,
)
    requires
        ordered(s.registry.devices.rows),
        devices_known(s),
    ensures
        devices_known(GatewayView { conns: Seq::empty(), ..s }),
        echo_known(s, echoed) || watermark(s.registry.devices.rows) < u64::MAX ==> devices_known(
            after_connect(s, echoed),
        ),
        dispatched(s, id, frame, after, step) ==> devices_known(after),
        devices_known(GatewayView { conns: without(s.conns, gone), ..s }),
{
    let rows = s.registry.devices.rows;
    if echo_known(s, echoed) || watermark(rows) < u64::MAX {
        let joined = after_connect(s, echoed);
        assert forall|i: int| 0 <= i < joined.conns.len() implies row_under(
            joined.registry.devices.rows,
            (#[trigger] joined.conns[i]).device,
        ) is Some by {
            if i < s.conns.len() {
                assert(joined.conns[i] == s.conns[i]);
            }
            if !echo_known(s, echoed) {
                let device = next_device(rows);
                lemma_put_one(rows, device);
                written_row_is_read_back(rows, device, joined.conns[i].device);
            }
        }
    }
    if dispatched(s, id, frame, after, step) {
        lemma_dispatch_keeps_rows(s, id, frame, after, step);
        assert forall|i: int| 0 <= i < after.conns.len() implies row_under(
            after.registry.devices.rows,
            (#[trigger] after.conns[i]).device,
        ) is Some by {
            events_evict_nobody(s, id, frame, after, step, i);
            assert(row_under(rows, s.conns[i].device) is Some);
        }
    }
    let left = without(s.conns, gone);
    assert forall|i: int| 0 <= i < left.len() implies row_under(
        rows,
        (#[trigger] left[i]).device,
    ) is Some by {
        pruning_removes_exactly(s.conns, gone, left[i]);
        assert(left.contains(left[i]));
        let j = choose|j: int| 0 <= j < s.conns.len() && s.conns[j] == left[i];
        assert(row_under(rows, s.conns[j].device) is Some);
    }
}

/// No event takes a device's row away.
proof fn lemma_dispatch_keeps_rows(
    s: GatewayView,
    id: u64,
    frame: FrameView,
    after: GatewayView,
    step: StepView,
)
    requires
        ordered(s.registry.devices.rows),
        dispatched(s, id, frame, after, step),
    ensures
        forall|device: u64|
            row_under(s.registry.devices.rows, device) is Some ==> #[trigger] row_under(
                after.registry.devices.rows,
                device,
            ) is Some,
{
    let own = identities(s.conns, id).0;
    let devices = s.registry.devices;
    assert forall|device: u64| row_under(devices.rows, device) is Some implies #[trigger] row_under(
        after.registry.devices.rows,
        device,
    ) is Some by {
        assert(after.registry.devices == devices || exists|user: u64|
            after.registry.devices == #[trigger] bound(devices, own, user)) by {
            lemma_events_bind(s, id, frame, after, step);
        }
        if after.registry.devices != devices {
            let user = choose|user: u64|
                after.registry.devices == #[trigger] bound(devices, own, user);
            if let Some(row) = row_under(devices.rows, own) {
                let written = Device { user_id: user, ..row };
                lemma_put_one(devices.rows, written);
                written_row_is_read_back(devices.rows, written, device);
            }
        }
    }
}

/// All that an event does to the devices is to bind the sender's.
proof fn lemma_events_bind(
    s: GatewayView,
    id: u64,
    frame: FrameView,
    after: GatewayView,
    step: StepView,
)
    requires
        dispatched(s, id, frame, after, step),
    ensures
        after.registry.devices == s.registry.devices || exists|user: u64|
            after.registry.devices == #[trigger] bound(
                s.registry.devices,
                identities(s.conns, id).0,
                user,
            ),
{
    lemma_verbs();
    let own = identities(s.conns, id).0;
    let username = text_or_empty(frame.args, "username"@);
    let password = text_or_empty(frame.args, "password"@);
    let nickname = text_or_empty(frame.args, "nickname"@);
    if frame.ev == "signup"@ {
        let answer = choose|answer: Result<u64, AccountErrorView>|
            #[trigger] signup_outcome(
                s.registry,
                username,
                nickname,
                password,
                own,
                answer,
                after.registry,
            ) && (after, step) == authed(s, after.registry, id, frame.ev, answer);
        if let Ok(user) = answer {
            assert(after.registry.devices == bound(s.registry.devices, own, user));
        }
    } else if frame.ev == "login"@ {
        if let Ok(user) = login_answer(s.registry.accounts.rows, username, password) {
            assert(after.registry.devices == bound(s.registry.devices, own, user));
        }
    }
}

}
