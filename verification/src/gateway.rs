//! The connection plane: the live connections, their identity, and what
//! becomes of a frame.
//!
//! Every connect is answered with the device it was assigned and the user
//! that device is bound to. `signup` and `login` are ordinary events that
//! set the connection's auth field; `broadcast` fans out over the one set of
//! connections, filtered by that field; `ping` is answered. Any other event
//! is a call of the actor of that name, which receives the sender as part of
//! its payload. Failures are `error` values, never a close.
//!
//! The gateway decides; sending frames, looking up what an actor declares
//! and calling it are done by whoever drives it, who hands back what came
//! of them.

use crate::admin::{administered, creates, serve_admin_at};
use crate::clock::{epoch_nanos, now_ms, stamp};
use crate::code_export::{code_step, serve_code_export, CodeStep, CodeStepView, Head, HeadView};
use crate::identity::{
    account_error_text, id_result, logged_in, login_answer, next_device, signup_outcome,
    AccountError, AccountErrorView, Device, Registry, RegistryView,
};
use crate::json::{
    as_text, field, field_of, json_view, no_fields, null, object, of_bool, of_text, of_u64,
    put_field, text_field, JsonView,
};
use crate::nodes::Posture;
use crate::protocol::{decoded, frame_result, Codec, Frame, FrameView, ProtocolError};
use crate::table::{ordered, row_under, watermark, written};
use crate::text::{
    chars_of, find_char, lemma_until_char, parse_unsigned, same, unsigned_value, until_char,
};
use vstd::prelude::*;
use vstd::utf8::encode_utf8;

verus! {

/// The first value of a key in a `k=v&k2=v2` query.
pub open spec fn param(query: Seq<char>, key: Seq<char>) -> Option<Seq<char>>
    decreases query.len(),
{
    let end = until_char(query, '&');
    let pair = query.take(end);
    let p = until_char(pair, '=');
    if p < pair.len() && pair.take(p) == key {
        Some(pair.skip(p + 1))
    } else if end < query.len() {
        proof {
            lemma_until_char(query, '&');
        }
        param(query.skip(end + 1), key)
    } else {
        None
    }
}

pub open spec fn text_view(text: Option<&str>) -> Option<Seq<char>> {
    match text {
        Some(text) => Some(text@),
        None => None,
    }
}

/// The first value of a key in a `k=v&k2=v2` query.
pub fn query_param<'a>(query: &'a str, key: &str) -> (value: Option<&'a str>)
    ensures
        text_view(value) == param(query@, key@),
{
    let chars = chars_of(query);
    let n: usize = chars.len();
    let mut from: usize = 0;
    assert(query@.skip(0) =~= query@);
    loop
        invariant
            from <= n,
            n == chars@.len(),
            chars@ == query@,
            param(query@, key@) == param(query@.skip(from as int), key@),
        decreases n - from,
    {
        let ghost rest = query@.skip(from as int);
        assert(chars@.subrange(from as int, n as int) =~= rest);
        let end: usize = find_char(&chars, '&', from, n);
        let p: usize = find_char(&chars, '=', from, end);
        let ghost pair = rest.take(end - from);
        assert(chars@.subrange(from as int, end as int) =~= pair);
        assert(query@.subrange(from as int, p as int) =~= pair.take(p - from));
        if p < end && same(query.substring_char(from, p), key) {
            assert(query@.subrange(p + 1, end as int) =~= pair.skip(p - from + 1));
            return Some(query.substring_char(p + 1, end));
        }
        if end == n {
            return None;
        }
        assert(rest.skip(end - from + 1) =~= query@.skip(end + 1));
        from = end + 1;
    }
}

/// What a handshake asks for: the codec of the connection, and the device
/// it echoes.
#[derive(Debug, Clone, Copy, PartialEq, Eq, Structural)]
pub struct Handshake {
    pub codec: Codec,
    pub device: Option<u64>,
}

/// The codec a query selects.
pub open spec fn codec_of(query: Seq<char>) -> Codec {
    if param(query, "protocol"@) == Some("json"@) {
        Codec::Json
    } else {
        Codec::Cbor
    }
}

/// The device a query echoes, if it is a number.
pub open spec fn device_of(query: Seq<char>) -> Option<u64> {
    match param(query, "device"@) {
        Some(text) => match unsigned_value(text, u64::MAX as nat) {
            Some(id) => Some(id as u64),
            None => None,
        },
        None => None,
    }
}

/// Reads the query of a handshake.
pub fn handshake(query: &str) -> (h: Handshake)
    ensures
        h.codec == codec_of(query@),
        h.device == device_of(query@),
{
    let codec = Codec::from_query(query_param(query, "protocol"));
    let device: Option<u64> = match query_param(query, "device") {
        Some(text) => {
            let chars = chars_of(text);
            assert(chars@.subrange(0, chars@.len() as int) =~= text@);
            parse_unsigned(&chars, 0, chars.len(), u64::MAX)
        },
        None => None,
    };
    Handshake { codec, device }
}

/// One live connection: its device, and its auth field, the user that is
/// logged in on it (0 for nobody).
#[derive(Debug, Clone, Copy, PartialEq, Eq, Structural)]
pub struct Conn {
    pub id: u64,
    pub device: u64,
    pub user: u64,
}

/// The gateway by what it holds.
pub struct GatewayView {
    pub registry: RegistryView,
    pub posture: Posture,
    pub conns: Seq<Conn>,
    pub next_id: u64,
}

/// Connection ids rise, and stay below the next one.
pub open spec fn conns_ordered(conns: Seq<Conn>, next_id: u64) -> bool {
    &&& forall|i: int, j: int|
        0 <= i < j < conns.len() ==> (#[trigger] conns[i]).id < (#[trigger] conns[j]).id
    &&& forall|i: int| 0 <= i < conns.len() ==> (#[trigger] conns[i]).id < next_id
}

/// The connection under an id.
pub open spec fn conn_under(conns: Seq<Conn>, id: u64) -> Option<Conn>
    decreases conns.len(),
{
    if conns.len() == 0 {
        None
    } else if conns[0].id == id {
        Some(conns[0])
    } else {
        conn_under(conns.skip(1), id)
    }
}

/// The device and the user of a connection, zeros when it is gone.
pub open spec fn identities(conns: Seq<Conn>, id: u64) -> (u64, u64) {
    match conn_under(conns, id) {
        Some(conn) => (conn.device, conn.user),
        None => (0, 0),
    }
}

/// Whom a reply reaches: the connection, unless it is gone.
pub open spec fn reach(conns: Seq<Conn>, id: u64) -> Seq<u64> {
    match conn_under(conns, id) {
        Some(_) => seq![id],
        None => Seq::empty(),
    }
}

/// The connections after one logged in.
pub open spec fn with_user(conns: Seq<Conn>, id: u64, user: u64) -> Seq<Conn> {
    conns.map_values(
        |c: Conn|
            if c.id == id {
                Conn { user, ..c }
            } else {
                c
            },
    )
}

/// Whom a broadcast reaches: every connection, or those with a user.
pub open spec fn selected(conns: Seq<Conn>, auth_only: bool) -> Seq<u64>
    decreases conns.len(),
{
    if conns.len() == 0 {
        Seq::empty()
    } else {
        let before = selected(conns.drop_last(), auth_only);
        if !auth_only || conns.last().user != 0 {
            before.push(conns.last().id)
        } else {
            before
        }
    }
}

/// The connections that are not among the given ids.
pub open spec fn without(conns: Seq<Conn>, gone: Seq<u64>) -> Seq<Conn>
    decreases conns.len(),
{
    if conns.len() == 0 {
        Seq::empty()
    } else {
        let before = without(conns.drop_last(), gone);
        if gone.contains(conns.last().id) {
            before
        } else {
            before.push(conns.last())
        }
    }
}

/// A user as JSON: null for nobody.
pub open spec fn user_json(user: u64) -> JsonView {
    if user != 0 {
        JsonView::Uint(user)
    } else {
        JsonView::Null
    }
}

/// The answer to a connect.
pub open spec fn connected_frame(device: u64, user: u64) -> FrameView {
    FrameView {
        ev: "connected"@,
        args: JsonView::Object(
            no_fields().insert("device_id"@, JsonView::Uint(device)).insert(
                "user_id"@,
                user_json(user),
            ),
        ),
    }
}

/// The answer to an event that failed.
pub open spec fn error_frame(ev: Seq<char>, message: Seq<char>) -> FrameView {
    FrameView {
        ev: "error"@,
        args: JsonView::Object(
            no_fields().insert("ev"@, JsonView::Text(ev)).insert(
                "message"@,
                JsonView::Text(message),
            ),
        ),
    }
}

/// The answer to bytes that are no frame.
pub open spec fn garbage_frame(message: Seq<char>) -> FrameView {
    FrameView {
        ev: "error"@,
        args: JsonView::Object(no_fields().insert("message"@, JsonView::Text(message))),
    }
}

/// The answer to an event that succeeded.
pub open spec fn result_frame(ev: Seq<char>, args: JsonView) -> FrameView {
    FrameView { ev: ev + ".result"@, args }
}

/// The answer to a ping.
pub open spec fn pong_frame() -> FrameView {
    result_frame(
        "ping"@,
        JsonView::Object(no_fields().insert("pong"@, JsonView::Bool(true))),
    )
}

/// The answer to a signup or a login.
pub open spec fn auth_frame(ev: Seq<char>, answer: Result<u64, AccountErrorView>) -> FrameView {
    match answer {
        Ok(user) => result_frame(
            ev,
            JsonView::Object(no_fields().insert("user_id"@, JsonView::Uint(user))),
        ),
        Err(error) => error_frame(ev, account_error_text(error)),
    }
}

/// What a handler receives: the sender, and the payload of the event.
pub open spec fn envelope(device: u64, user: u64, args: JsonView) -> JsonView {
    JsonView::Object(
        no_fields().insert(
            "sender"@,
            JsonView::Object(
                no_fields().insert("device"@, JsonView::Uint(device)).insert(
                    "user"@,
                    user_json(user),
                ),
            ),
        ).insert("args"@, args),
    )
}

/// A frame for some connections.
pub struct Delivery {
    pub to: Vec<u64>,
    pub frame: Frame,
}

/// An event from a sender without a user, whose declaration decides.
pub struct Inquiry {
    pub id: u64,
    pub device: u64,
    pub frame: Frame,
}

/// A call of an actor: the instance `key` of type `actor_type`, and its
/// handler of the same name.
pub struct Call {
    pub id: u64,
    pub actor_type: String,
    pub key: &'static str,
    pub payload: serde_json::Value,
}

/// What is to be done about an event.
pub enum Step {
    /// Send a frame.
    Deliver(Delivery),
    /// Look up what the actor named by the event declares, and hand it to
    /// `decide`.
    Inspect(Inquiry),
    /// Call the actor, and hand the outcome to `complete`.
    Invoke(Call),
}

/// A step by what it holds.
pub enum StepView {
    Deliver(Seq<u64>, FrameView),
    Inspect(u64, u64, FrameView),
    /// The connection, the actor type, its instance and the payload.
    Invoke(u64, Seq<char>, Seq<char>, JsonView),
}

impl View for Delivery {
    type V = StepView;

    open spec fn view(&self) -> StepView {
        StepView::Deliver(self.to@, self.frame@)
    }
}

impl View for Step {
    type V = StepView;

    open spec fn view(&self) -> StepView {
        match self {
            Step::Deliver(delivery) => delivery@,
            Step::Inspect(inquiry) => StepView::Inspect(inquiry.id, inquiry.device, inquiry.frame@),
            Step::Invoke(call) => StepView::Invoke(
                call.id,
                call.actor_type@,
                call.key@,
                json_view(call.payload),
            ),
        }
    }
}

/// The call that an event becomes.
pub open spec fn invocation(id: u64, device: u64, user: u64, frame: FrameView) -> StepView {
    StepView::Invoke(id, frame.ev, "ws"@, envelope(device, user, frame.args))
}

/// The text under a key of the payload, empty when there is none.
pub open spec fn text_or_empty(args: JsonView, key: Seq<char>) -> Seq<char> {
    match text_field(args, key) {
        Some(text) => text,
        None => Seq::empty(),
    }
}

/// The gateway after a signup or a login with this answer, and the reply.
pub open spec fn authed(
    s: GatewayView,
    registry: RegistryView,
    id: u64,
    ev: Seq<char>,
    answer: Result<u64, AccountErrorView>,
) -> (GatewayView, StepView) {
    (
        GatewayView {
            registry,
            conns: match answer {
                Ok(user) => with_user(s.conns, id, user),
                Err(_) => s.conns,
            },
            ..s
        },
        StepView::Deliver(reach(s.conns, id), auth_frame(ev, answer)),
    )
}

/// What may become of an event: the gateway after it, and the step to take.
pub open spec fn dispatched(
    s: GatewayView,
    id: u64,
    frame: FrameView,
    after: GatewayView,
    step: StepView,
) -> bool {
    let (device, user) = identities(s.conns, id);
    let username = text_or_empty(frame.args, "username"@);
    let password = text_or_empty(frame.args, "password"@);
    let nickname = text_or_empty(frame.args, "nickname"@);
    if frame.ev == "signup"@ {
        exists|answer: Result<u64, AccountErrorView>|
            {
                &&& #[trigger] signup_outcome(
                    s.registry,
                    username,
                    nickname,
                    password,
                    device,
                    answer,
                    after.registry,
                )
                &&& (after, step) == authed(s, after.registry, id, frame.ev, answer)
            }
    } else if frame.ev == "login"@ {
        let answer = login_answer(s.registry.accounts.rows, username, password);
        (after, step) == authed(
            s,
            logged_in(s.registry, answer, device),
            id,
            frame.ev,
            answer,
        )
    } else {
        after == s && step == if frame.ev == "broadcast"@ {
            StepView::Deliver(
                selected(s.conns, text_field(frame.args, "to"@) == Some("auth"@)),
                frame,
            )
        } else if frame.ev == "ping"@ {
            StepView::Deliver(reach(s.conns, id), pong_frame())
        } else if user == 0 {
            StepView::Inspect(id, device, frame)
        } else {
            invocation(id, device, user, frame)
        }
    }
}

/// An actor's interface declares that an event needs a bound user: its
/// `auth` block names the event. What it says of it is reserved.
pub open spec fn requires_auth(schema: Option<JsonView>, ev: Seq<char>) -> bool {
    match schema {
        Some(value) => match field_of(value, "auth"@) {
            Some(auth) => field_of(auth, ev) is Some,
            None => false,
        },
        None => false,
    }
}

/// What becomes of an event from a sender without a user, given what the
/// actor declares.
pub open spec fn decided(
    conns: Seq<Conn>,
    id: u64,
    device: u64,
    frame: FrameView,
    schema: Option<JsonView>,
) -> StepView {
    if requires_auth(schema, frame.ev) {
        StepView::Deliver(reach(conns, id), error_frame(frame.ev, "authentication required"@))
    } else {
        invocation(id, device, 0, frame)
    }
}

/// What came of a call.
pub enum Outcome {
    /// The handler's result.
    Done(serde_json::Value),
    /// The call or its handler failed.
    Failed(String),
    /// The target is cold.
    Pending,
}

/// The reply to a call.
pub open spec fn outcome_frame(ev: Seq<char>, outcome: Outcome) -> FrameView {
    match outcome {
        Outcome::Done(value) => result_frame(ev, json_view(value)),
        Outcome::Failed(message) => error_frame(ev, message@),
        Outcome::Pending => error_frame(ev, "cold call not supported on the echo plane"@),
    }
}

/// A message off the socket.
pub enum Inbound {
    Binary(Vec<u8>),
    Text(String),
    Close,
    /// Control messages.
    Other,
}

/// What a message comes to.
pub enum Arrival {
    /// The connection ends.
    Stop,
    /// Nothing is to be done.
    Skip,
    /// The message was no frame, and is answered.
    Reply(Delivery),
    /// An event, for `dispatch`.
    Event(Frame),
}

/// An arrival by what it holds.
pub enum ArrivalView {
    Stop,
    Skip,
    Reply(StepView),
    Event(FrameView),
}

impl View for Arrival {
    type V = ArrivalView;

    open spec fn view(&self) -> ArrivalView {
        match self {
            Arrival::Stop => ArrivalView::Stop,
            Arrival::Skip => ArrivalView::Skip,
            Arrival::Reply(delivery) => ArrivalView::Reply(delivery@),
            Arrival::Event(frame) => ArrivalView::Event(frame@),
        }
    }
}

/// What bytes come to, once the codec read them.
pub open spec fn arrival(
    conns: Seq<Conn>,
    id: u64,
    read: Result<FrameView, Seq<char>>,
) -> ArrivalView {
    match read {
        Ok(frame) => ArrivalView::Event(frame),
        Err(text) => ArrivalView::Reply(
            StepView::Deliver(reach(conns, id), garbage_frame("protocol error: "@ + text)),
        ),
    }
}

/// What a message comes to.
pub open spec fn arrived(
    conns: Seq<Conn>,
    id: u64,
    codec: Codec,
    message: Inbound,
) -> ArrivalView {
    match message {
        Inbound::Binary(bytes) => arrival(conns, id, decoded(codec, bytes@)),
        Inbound::Text(text) => arrival(conns, id, decoded(codec, encode_utf8(text@))),
        Inbound::Close => ArrivalView::Stop,
        Inbound::Other => ArrivalView::Skip,
    }
}

/// The connection that a connect makes: a device that is echoed and has a
/// row is kept, with the user it is bound to; anything else is a fresh
/// device, bound to nobody.
pub open spec fn new_conn(s: GatewayView, echoed: Option<u64>) -> Conn {
    match echoed {
        Some(device) => match row_under(s.registry.devices.rows, device) {
            Some(row) => Conn { id: s.next_id, device, user: row.user_id },
            None => fresh_conn(s),
        },
        None => fresh_conn(s),
    }
}

pub open spec fn fresh_conn(s: GatewayView) -> Conn {
    Conn { id: s.next_id, device: next_device(s.registry.devices.rows).id, user: 0 }
}

/// The echoed device has a row.
pub open spec fn echo_known(s: GatewayView, echoed: Option<u64>) -> bool {
    echoed matches Some(device) && row_under(s.registry.devices.rows, device) is Some
}

/// The gateway after a connect.
pub open spec fn after_connect(s: GatewayView, echoed: Option<u64>) -> GatewayView {
    let conn = new_conn(s, echoed);
    GatewayView {
        registry: if echo_known(s, echoed) {
            s.registry
        } else {
            RegistryView {
                devices: written(
                    s.registry.devices,
                    seq![next_device(s.registry.devices.rows)],
                ),
                ..s.registry
            }
        },
        conns: s.conns.push(conn),
        next_id: (s.next_id + 1) as u64,
        ..s
    }
}

/// Where a request goes.
pub enum Routed {
    /// It is answered, and the connection closes.
    Respond(Vec<u8>),
    /// The blob under this digest is asked for.
    Lookup([u8; 32]),
    /// It is replayed into the socket handshake.
    Upgrade,
}

/// A route by what it holds.
pub enum RoutedView {
    Respond(Seq<u8>),
    Lookup(Seq<u8>),
    Upgrade,
}

impl View for Routed {
    type V = RoutedView;

    open spec fn view(&self) -> RoutedView {
        match self {
            Routed::Respond(bytes) => RoutedView::Respond(bytes@),
            Routed::Lookup(sha) => RoutedView::Lookup(sha@),
            Routed::Upgrade => RoutedView::Upgrade,
        }
    }
}

/// The gateway after a request, and where the request goes: the admin
/// surface, the code export, or the socket.
pub open spec fn routed(s: GatewayView, head: HeadView, now: u64) -> (GatewayView, RoutedView) {
    let (nodes, answer) = administered(
        s.registry.nodes,
        head.method,
        head.path,
        head.body,
        now,
    );
    (
        GatewayView { registry: RegistryView { nodes, ..s.registry }, ..s },
        match answer {
            Some(bytes) => RoutedView::Respond(bytes),
            None => match code_step(head.path, head.method) {
                CodeStepView::Respond(bytes) => RoutedView::Respond(bytes),
                CodeStepView::Lookup(sha) => RoutedView::Lookup(sha),
                CodeStepView::NotMine => RoutedView::Upgrade,
            },
        },
    )
}

/// The gateway: the registry, the declared trust mode, and the live
/// connections.
pub struct Gateway {
    registry: Registry,
    posture: Posture,
    conns: Vec<Conn>,
    next_id: u64,
}

impl View for Gateway {
    type V = GatewayView;

    closed spec fn view(&self) -> GatewayView {
        GatewayView {
            registry: self.registry@,
            posture: self.posture,
            conns: self.conns@,
            next_id: self.next_id,
        }
    }
}

proof fn lemma_conn_under(conns: Seq<Conn>, id: u64, at: int)
    requires
        0 <= at <= conns.len(),
        forall|j: int| 0 <= j < at ==> (#[trigger] conns[j]).id != id,
        at < conns.len() ==> conns[at].id == id,
    ensures
        conn_under(conns, id) == if at < conns.len() {
            Some(conns[at])
        } else {
            None
        },
    decreases conns.len(),
{
    if conns.len() > 0 && at > 0 {
        assert(conns[0].id != id);
        let rest = conns.skip(1);
        assert forall|j: int| 0 <= j < at - 1 implies (#[trigger] rest[j]).id != id by {
            assert(rest[j] == conns[j + 1]);
        }
        lemma_conn_under(rest, id, at - 1);
    }
}

fn user_value(user: u64) -> (value: serde_json::Value)
    ensures
        json_view(value) == user_json(user),
{
    if user != 0 {
        of_u64(user)
    } else {
        null()
    }
}

fn make_error(ev: &str, message: &str) -> (frame: Frame)
    ensures
        frame@ == error_frame(ev@, message@),
{
    let mut args = object();
    put_field(&mut args, "ev", of_text(ev));
    put_field(&mut args, "message", of_text(message));
    Frame::new("error", args)
}

fn make_result(ev: &str, args: serde_json::Value) -> (frame: Frame)
    ensures
        frame@ == result_frame(ev@, json_view(args)),
{
    let mut name = ev.to_string();
    name.append(".result");
    Frame::new(name.as_str(), args)
}

fn make_envelope(device: u64, user: u64, args: serde_json::Value) -> (value: serde_json::Value)
    ensures
        json_view(value) == envelope(device, user, json_view(args)),
{
    let mut sender = object();
    put_field(&mut sender, "device", of_u64(device));
    put_field(&mut sender, "user", user_value(user));
    let mut value = object();
    put_field(&mut value, "sender", sender);
    put_field(&mut value, "args", args);
    value
}

fn make_call(id: u64, device: u64, user: u64, frame: Frame) -> (step: Step)
    ensures
        step@ == invocation(id, device, user, frame@),
{
    Step::Invoke(
        Call {
            id,
            actor_type: frame.ev,
            key: "ws",
            payload: make_envelope(device, user, frame.args),
        },
    )
}

fn text_in(args: &serde_json::Value, key: &str) -> (text: String)
    ensures
        text@ == text_or_empty(json_view(*args), key@),
{
    if let Some(value) = field(args, key) {
        if let Some(text) = as_text(value) {
            return text.to_string();
        }
    }
    String::new()
}

/// Whether an actor's interface declares that an event needs a bound user.
pub fn handler_requires_auth(schema: Option<&serde_json::Value>, ev: &str) -> (r: bool)
    ensures
        r == requires_auth(schema_view(schema), ev@),
{
    match schema {
        Some(value) => match field(value, "auth") {
            Some(auth) => field(auth, ev).is_some(),
            None => false,
        },
        None => false,
    }
}

pub open spec fn schema_view(schema: Option<&serde_json::Value>) -> Option<JsonView> {
    match schema {
        Some(value) => Some(json_view(*value)),
        None => None,
    }
}

impl Gateway {
    /// The tables of the registry are in order, and so are the connections.
    pub open spec fn wf(&self) -> bool {
        &&& ordered(self@.registry.accounts.rows)
        &&& ordered(self@.registry.devices.rows)
        &&& ordered(self@.registry.nodes.rows)
        &&& conns_ordered(self@.conns, self@.next_id)
    }

    /// There is an id left for one more device.
    pub open spec fn devices_left(&self) -> bool {
        watermark(self@.registry.devices.rows) < u64::MAX
    }

    /// There is an id left for one more account.
    pub open spec fn accounts_left(&self) -> bool {
        watermark(self@.registry.accounts.rows) < u64::MAX
    }

    /// There is an id left for one more node record.
    pub open spec fn nodes_left(&self) -> bool {
        watermark(self@.registry.nodes.rows) < u64::MAX
    }

    /// A gateway without connections.
    pub fn new(registry: Registry, posture: Posture) -> (gateway: Self)
        requires
            registry.wf(),
        ensures
            gateway.wf(),
            gateway@ == (GatewayView {
                registry: registry@,
                posture,
                conns: Seq::empty(),
                next_id: 1,
            }),
    {
        Gateway { registry, posture, conns: Vec::new(), next_id: 1 }
    }

    /// The declared trust mode.
    pub fn posture(&self) -> (posture: Posture)
        ensures
            posture == self@.posture,
    {
        self.posture
    }

    /// The registry behind the gateway.
    pub fn registry(&mut self) -> (registry: &mut Registry)
        ensures
            registry@ == old(self)@.registry,
            final(self)@ == (GatewayView { registry: final(registry)@, ..old(self)@ }),
    {
        &mut self.registry
    }

    /// Whether there are ids left for one more connection and its device.
    pub fn can_connect(&self) -> (r: bool)
        ensures
            r == (self.devices_left() && self@.next_id < u64::MAX),
    {
        self.registry.can_mint() && self.next_id < u64::MAX
    }

    /// Whether there is an id left for one more account.
    pub fn can_enrol(&self) -> (r: bool)
        ensures
            r == self.accounts_left(),
    {
        self.registry.can_enrol()
    }

    /// Whether there is an id left for one more node record.
    pub fn can_list_more(&self) -> (r: bool)
        ensures
            r == self.nodes_left(),
    {
        self.registry.can_list_more()
    }

    /// The connection under an id.
    fn conn(&self, id: u64) -> (conn: Option<Conn>)
        ensures
            conn == conn_under(self@.conns, id),
    {
        let mut i: usize = 0;
        while i < self.conns.len()
            invariant
                i <= self.conns@.len(),
                forall|j: int| 0 <= j < i ==> (#[trigger] self.conns@[j]).id != id,
            decreases self.conns.len() - i,
        {
            if self.conns[i].id == id {
                proof {
                    lemma_conn_under(self.conns@, id, i as int);
                }
                return Some(self.conns[i]);
            }
            i = i + 1;
        }
        proof {
            lemma_conn_under(self.conns@, id, i as int);
        }
        None
    }

    /// The device and the user of a connection, zeros when it is gone.
    pub fn identities(&self, id: u64) -> (r: (u64, u64))
        ensures
            r == identities(self@.conns, id),
    {
        match self.conn(id) {
            Some(conn) => (conn.device, conn.user),
            None => (0, 0),
        }
    }

    /// A frame for one connection, unless it is gone.
    pub fn send_to(&self, id: u64, frame: Frame) -> (delivery: Delivery)
        ensures
            delivery@ == StepView::Deliver(reach(self@.conns, id), frame@),
    {
        let mut to: Vec<u64> = Vec::new();
        if self.conn(id).is_some() {
            to.push(id);
        }
        assert(to@ =~= reach(self@.conns, id));
        Delivery { to, frame }
    }

    /// A frame for every connection, or for those with a user. Selecting
    /// evicts nobody.
    pub fn broadcast_frame(&self, frame: Frame, auth_only: bool) -> (delivery: Delivery)
        ensures
            delivery@ == StepView::Deliver(selected(self@.conns, auth_only), frame@),
    {
        let mut to: Vec<u64> = Vec::new();
        let mut i: usize = 0;
        assert(self.conns@.take(0) =~= Seq::<Conn>::empty());
        while i < self.conns.len()
            invariant
                i <= self.conns@.len(),
                to@ == selected(self.conns@.take(i as int), auth_only),
            decreases self.conns.len() - i,
        {
            let conn = self.conns[i];
            assert(self.conns@.take(i + 1).drop_last() =~= self.conns@.take(i as int));
            if !auth_only || conn.user != 0 {
                to.push(conn.id);
            }
            i = i + 1;
        }
        assert(self.conns@.take(i as int) =~= self.conns@);
        Delivery { to, frame }
    }

    /// Makes a connection, and answers it: one frame for the device it was
    /// assigned and the user that is restored.
    pub fn connect(&mut self, echoed: Option<u64>) -> (r: (u64, Frame))
        requires
            old(self).wf(),
            old(self)@.next_id < u64::MAX,
            !echo_known(old(self)@, echoed) ==> old(self).devices_left(),
        ensures
            final(self).wf(),
            final(self)@ == after_connect(old(self)@, echoed),
            r.0 == new_conn(old(self)@, echoed).id,
            r.1@ == connected_frame(
                new_conn(old(self)@, echoed).device,
                new_conn(old(self)@, echoed).user,
            ),
    {
        let known: Option<Device> = match echoed {
            Some(device) => self.registry.device(device),
            None => None,
        };
        let (device, user) = match (echoed, known) {
            (Some(device), Some(row)) => (device, row.user_id),
            _ => match self.registry.new_device() {
                Ok(device) => (device, 0u64),
                Err(_) => (0u64, 0u64),
            },
        };
        let id: u64 = self.next_id;
        self.conns.push(Conn { id, device, user });
        self.next_id = id + 1;
        let mut args = object();
        put_field(&mut args, "device_id", of_u64(device));
        put_field(&mut args, "user_id", user_value(user));
        (id, Frame::new("connected", args))
    }

    /// Takes connections that are gone off the table.
    pub fn prune(&mut self, gone: &Vec<u64>)
        requires
            old(self).wf(),
        ensures
            final(self).wf(),
            final(self)@ == (GatewayView {
                conns: without(old(self)@.conns, gone@),
                ..old(self)@
            }),
    {
        let ghost all = self.conns@;
        let mut kept: Vec<Conn> = Vec::new();
        let mut i: usize = 0;
        assert(all.take(0) =~= Seq::<Conn>::empty());
        while i < self.conns.len()
            invariant
                self.conns@ == all,
                i <= all.len(),
                kept@ == without(all.take(i as int), gone@),
            decreases all.len() - i,
        {
            let conn = self.conns[i];
            assert(all.take(i + 1).drop_last() =~= all.take(i as int));
            if !contains(gone, conn.id) {
                kept.push(conn);
            }
            i = i + 1;
        }
        assert(all.take(i as int) =~= all);
        self.conns = kept;
        proof {
            lemma_without_ordered(all, gone@, self.next_id);
        }
    }

    /// Takes one connection off the table.
    pub fn disconnect(&mut self, id: u64)
        requires
            old(self).wf(),
        ensures
            final(self).wf(),
            final(self)@ == (GatewayView {
                conns: without(old(self)@.conns, seq![id]),
                ..old(self)@
            }),
    {
        let mut gone: Vec<u64> = Vec::new();
        gone.push(id);
        assert(gone@ =~= seq![id]);
        self.prune(&gone);
    }

    /// What bytes come to, once the codec read them.
    pub fn read(&self, id: u64, read: Result<Frame, ProtocolError>) -> (r: Arrival)
        ensures
            r@ == arrival(self@.conns, id, frame_result(read)),
    {
        match read {
            Ok(frame) => Arrival::Event(frame),
            Err(error) => {
                let mut args = object();
                put_field(&mut args, "message", of_text(error.to_string().as_str()));
                Arrival::Reply(self.send_to(id, Frame::new("error", args)))
            },
        }
    }

    /// What a message off the socket comes to.
    pub fn inbound(&self, id: u64, codec: Codec, message: Inbound) -> (r: Arrival)
        ensures
            r@ == arrived(self@.conns, id, codec, message),
    {
        match message {
            Inbound::Binary(bytes) => self.read(id, codec.decode(bytes.as_slice())),
            Inbound::Text(text) => self.read(id, codec.decode(text.as_str().as_bytes())),
            Inbound::Close => Arrival::Stop,
            Inbound::Other => Arrival::Skip,
        }
    }

    /// Ends a signup or a login: the auth field of the connection is the
    /// only thing written.
    pub fn finish_auth(&mut self, id: u64, ev: &str, outcome: Result<u64, AccountError>) -> (delivery:
        Delivery)
        requires
            old(self).wf(),
        ensures
            final(self).wf(),
            (final(self)@, delivery@) == authed(
                old(self)@,
                old(self)@.registry,
                id,
                ev@,
                id_result(outcome),
            ),
    {
        let ghost before = self.conns@;
        match outcome {
            Ok(user) => {
                let reply = {
                    let mut args = object();
                    put_field(&mut args, "user_id", of_u64(user));
                    self.send_to(id, make_result(ev, args))
                };
                let mut i: usize = 0;
                while i < self.conns.len()
                    invariant
                        i <= self.conns@.len() == before.len(),
                        self.registry == old(self).registry,
                        self.posture == old(self).posture,
                        self.next_id == old(self).next_id,
                        forall|j: int|
                            0 <= j < before.len() ==> #[trigger] self.conns@[j] == if j < i {
                                with_user(before, id, user)[j]
                            } else {
                                before[j]
                            },
                    decreases self.conns.len() - i,
                {
                    let conn = self.conns[i];
                    if conn.id == id {
                        self.conns.set(i, Conn { id: conn.id, device: conn.device, user });
                    }
                    i = i + 1;
                }
                assert(self.conns@ =~= with_user(before, id, user));
                reply
            },
            Err(error) => self.send_to(id, make_error(ev, error.to_string().as_str())),
        }
    }

    /// A signup or a login, by the fields of its payload.
    fn auth_event(&mut self, id: u64, frame: Frame) -> (delivery: Delivery)
        requires
            old(self).wf(),
            frame@.ev == "signup"@ ==> old(self).accounts_left(),
            frame@.ev == "signup"@ || frame@.ev == "login"@,
        ensures
            final(self).wf(),
            dispatched(old(self)@, id, frame@, final(self)@, delivery@),
    {
        let username = text_in(&frame.args, "username");
        let password = text_in(&frame.args, "password");
        let (device, _) = self.identities(id);
        let ghost before = self@;
        proof {
            lemma_verbs();
        }
        let outcome = if same(frame.ev.as_str(), "signup") {
            let nickname = text_in(&frame.args, "nickname");
            self.registry.signup(username.as_str(), nickname.as_str(), password.as_str(), device)
        } else {
            self.registry.login(username.as_str(), password.as_str(), device)
        };
        let ghost answer = id_result(outcome);
        let ghost middle = self@;
        let delivery = self.finish_auth(id, frame.ev.as_str(), outcome);
        assert((self@, delivery@) == authed(before, middle.registry, id, frame@.ev, answer));
        delivery
    }

    /// What becomes of an event. Only a signup needs an id for an account.
    pub fn dispatch(&mut self, id: u64, frame: Frame) -> (step: Step)
        requires
            old(self).wf(),
            frame@.ev == "signup"@ ==> old(self).accounts_left(),
        ensures
            final(self).wf(),
            dispatched(old(self)@, id, frame@, final(self)@, step@),
    {
        proof {
            lemma_verbs();
        }
        if same(frame.ev.as_str(), "signup") || same(frame.ev.as_str(), "login") {
            return Step::Deliver(self.auth_event(id, frame));
        }
        if same(frame.ev.as_str(), "broadcast") {
            let to = field(&frame.args, "to");
            let auth_only = match to {
                Some(value) => match as_text(value) {
                    Some(text) => same(text, "auth"),
                    None => false,
                },
                None => false,
            };
            return Step::Deliver(self.broadcast_frame(frame, auth_only));
        }
        if same(frame.ev.as_str(), "ping") {
            let mut args = object();
            put_field(&mut args, "pong", of_bool(true));
            return Step::Deliver(self.send_to(id, make_result("ping", args)));
        }
        let (device, user) = self.identities(id);
        if user == 0 {
            Step::Inspect(Inquiry { id, device, frame })
        } else {
            make_call(id, device, user, frame)
        }
    }

    /// What becomes of an event from a sender without a user, given what the
    /// actor named by the event declares.
    pub fn decide(&self, inquiry: Inquiry, schema: Option<&serde_json::Value>) -> (step: Step)
        ensures
            step@ == decided(
                self@.conns,
                inquiry.id,
                inquiry.device,
                inquiry.frame@,
                schema_view(schema),
            ),
    {
        if handler_requires_auth(schema, inquiry.frame.ev.as_str()) {
            Step::Deliver(
                self.send_to(
                    inquiry.id,
                    make_error(inquiry.frame.ev.as_str(), "authentication required"),
                ),
            )
        } else {
            make_call(inquiry.id, inquiry.device, 0, inquiry.frame)
        }
    }

    /// The reply to a call, once its outcome is known.
    pub fn complete(&self, id: u64, ev: &str, outcome: Outcome) -> (delivery: Delivery)
        ensures
            delivery@ == StepView::Deliver(reach(self@.conns, id), outcome_frame(ev@, outcome)),
    {
        let frame = match outcome {
            Outcome::Done(value) => make_result(ev, value),
            Outcome::Failed(message) => make_error(ev, message.as_str()),
            Outcome::Pending => make_error(ev, "cold call not supported on the echo plane"),
        };
        self.send_to(id, frame)
    }

    /// Where a request goes, at a given time.
    pub fn serve_http_at(&mut self, head: &Head, now: u64) -> (r: Routed)
        requires
            old(self).wf(),
            creates(head.method@, head.path@) ==> old(self).nodes_left(),
        ensures
            final(self).wf(),
            (final(self)@, r@) == routed(old(self)@, head@, now),
    {
        let nodes = self.registry.nodes();
        let answer = serve_admin_at(
            nodes,
            head.method.as_str(),
            head.path.as_str(),
            head.body.as_slice(),
            now,
        );
        match answer {
            Some(bytes) => Routed::Respond(bytes),
            None => match serve_code_export(head) {
                CodeStep::Respond(bytes) => Routed::Respond(bytes),
                CodeStep::Lookup(sha) => Routed::Lookup(sha),
                CodeStep::NotMine => Routed::Upgrade,
            },
        }
    }

    /// Where a request goes, at the time the clock shows.
    pub fn serve_http(&mut self, head: &Head) -> (r: Routed)
        requires
            old(self).wf(),
            creates(head.method@, head.path@) ==> old(self).nodes_left(),
        ensures
            final(self).wf(),
            exists|time: std::time::SystemTime|
                (final(self)@, r@) == routed(
                    old(self)@,
                    head@,
                    stamp(#[trigger] epoch_nanos(time)),
                ),
    {
        let now: u64 = now_ms();
        self.serve_http_at(head, now)
    }
}

fn contains(ids: &Vec<u64>, id: u64) -> (r: bool)
    ensures
        r == ids@.contains(id),
{
    let mut i: usize = 0;
    while i < ids.len()
        invariant
            i <= ids@.len(),
            forall|j: int| 0 <= j < i ==> ids@[j] != id,
        decreases ids.len() - i,
    {
        if ids[i] == id {
            return true;
        }
        i = i + 1;
    }
    false
}

pub proof fn lemma_verbs()
    ensures
        "signup"@ != "login"@,
        "signup"@ != "broadcast"@,
        "signup"@ != "ping"@,
        "login"@ != "broadcast"@,
        "login"@ != "ping"@,
        "broadcast"@ != "ping"@,
{
    reveal_strlit("signup");
    reveal_strlit("login");
    reveal_strlit("broadcast");
    reveal_strlit("ping");
    assert("signup"@.len() == 6 && "login"@.len() == 5 && "broadcast"@.len() == 9 && "ping"@.len()
        == 4);
}

proof fn lemma_without_ordered(conns: Seq<Conn>, gone: Seq<u64>, next_id: u64)
    requires
        conns_ordered(conns, next_id),
    ensures
        conns_ordered(without(conns, gone), next_id),
        forall|i: int|
            0 <= i < without(conns, gone).len() ==> conns.contains(
                #[trigger] without(conns, gone)[i],
            ),
    decreases conns.len(),
{
    if conns.len() > 0 {
        let init = conns.drop_last();
        lemma_without_ordered(init, gone, next_id);
        let before = without(init, gone);
        assert forall|i: int| 0 <= i < before.len() implies (#[trigger] before[i]).id
            < conns.last().id && conns.contains(before[i]) by {
            assert(init.contains(before[i]));
            let j = choose|j: int| 0 <= j < init.len() && init[j] == before[i];
            assert(conns[j] == before[i]);
        }
        assert(conns.contains(conns.last()));
    }
}

}
