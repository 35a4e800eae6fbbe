//! The admin HTTP surface: the approval face of the node registry, on the
//! same accept loop as the socket. JSON in, JSON out, one record behind it.
//!
//! ```text
//! POST   /admin/nodes                  {alias, public_key}  201 pending record
//! GET    /admin/nodes                                       200 every record
//! POST   /admin/nodes/{alias}/approve  {public_key?}        200 approved record
//! DELETE /admin/nodes/{alias}          {public_key?}        200 {revoked: n}
//! ```
//!
//! A malformed or missing field is answered 400. A decision the registry
//! refuses is answered 409 with the registry's own message. Any other route
//! under the prefix is answered 404.

use crate::clock::{epoch_nanos, now_ms, stamp};
use crate::code_export::{declared_length, plain, plain_response, respond, response};
use crate::framing_laws::{frames, json_answer_frames_its_value};
use crate::json::{
    as_text, field, field_of, from_json, json_read, json_text, json_view, no_fields, object,
    of_list, of_text, of_u64, put_field, text_field, to_json, JsonView,
};
use crate::node_laws::{registry_stays_valid, valid};
use crate::nodes::{
    approve_puts, approve_target, create_answer, create_puts, fresh, node_error_text, revocations,
    some_row, with_status, Node, NodeErrorView, NodeStore, NodeView, Pick,
};
use crate::table::{
    lemma_put_appends, lemma_put_one, lemma_written_none, ordered, views, watermark, written,
    TableView,
};
use crate::text::{chars_of, ends_with, find_char, same, starts_with, strip_prefix, strip_suffix};
use vstd::prelude::*;
use vstd::utf8::decode_utf8;

verus! {

/// A route under the prefix.
pub enum Route {
    Create,
    List,
    Approve(String),
    Revoke(String),
    Unknown,
}

/// A route by what it holds.
pub enum RouteView {
    Create,
    List,
    Approve(Seq<char>),
    Revoke(Seq<char>),
    Unknown,
}

impl View for Route {
    type V = RouteView;

    open spec fn view(&self) -> RouteView {
        match self {
            Route::Create => RouteView::Create,
            Route::List => RouteView::List,
            Route::Approve(alias) => RouteView::Approve(alias@),
            Route::Revoke(alias) => RouteView::Revoke(alias@),
            Route::Unknown => RouteView::Unknown,
        }
    }
}

/// What follows a prefix.
pub open spec fn behind(s: Seq<char>, prefix: Seq<char>) -> Seq<char> {
    s.skip(prefix.len() as int)
}

/// What precedes a suffix.
pub open spec fn before(s: Seq<char>, suffix: Seq<char>) -> Seq<char> {
    s.take(s.len() - suffix.len())
}

/// The route that a method and the path behind `/admin` mean.
pub open spec fn route_of(method: Seq<char>, rest: Seq<char>) -> RouteView {
    let under = starts_with(rest, "/nodes/"@);
    let name = behind(rest, "/nodes/"@);
    if method == "POST"@ && rest == "/nodes"@ {
        RouteView::Create
    } else if method == "GET"@ && rest == "/nodes"@ {
        RouteView::List
    } else if method == "POST"@ && under && ends_with(name, "/approve"@) {
        RouteView::Approve(before(name, "/approve"@))
    } else if method == "DELETE"@ && under && name.len() > 0 && !name.contains('/') {
        RouteView::Revoke(name)
    } else {
        RouteView::Unknown
    }
}

/// The path is `/admin` or lies under it.
pub open spec fn under_admin(path: Seq<char>) -> bool {
    path == "/admin"@ || starts_with(path, "/admin/"@)
}

/// The request is for a new record, which needs an id.
pub open spec fn creates(method: Seq<char>, path: Seq<char>) -> bool {
    under_admin(path) && route_of(method, behind(path, "/admin"@)) is Create
}

/// A field that must be a text and not empty.
pub open spec fn required(value: JsonView, key: Seq<char>) -> Result<Seq<char>, Seq<char>> {
    match text_field(value, key) {
        Some(text) => if text.len() > 0 {
            Ok(text)
        } else {
            Err("`"@ + key + "` is required"@)
        },
        None => Err("`"@ + key + "` is required"@),
    }
}

/// The alias and the key in a body.
pub open spec fn pair_of(value: JsonView) -> Result<(Seq<char>, Seq<char>), Seq<char>> {
    match required(value, "alias"@) {
        Err(text) => Err(text),
        Ok(alias) => match required(value, "public_key"@) {
            Err(text) => Err(text),
            Ok(key) => Ok((alias, key)),
        },
    }
}

/// The key in a body that may leave it out.
pub open spec fn key_of(value: JsonView) -> Result<Option<Seq<char>>, Seq<char>> {
    match field_of(value, "public_key"@) {
        None => Ok(None),
        Some(_) => match text_field(value, "public_key"@) {
            Some(text) => if text.len() > 0 {
                Ok(Some(text))
            } else {
                Err("`public_key` must be a non-empty string"@)
            },
            None => Err("`public_key` must be a non-empty string"@),
        },
    }
}

/// The alias and the key that the bytes of a body hold.
pub open spec fn pair_in(body: Seq<u8>) -> Result<(Seq<char>, Seq<char>), Seq<char>> {
    match json_read(body) {
        Err(text) => Err("body must be JSON: "@ + text),
        Ok(value) => pair_of(value),
    }
}

/// The key that the bytes of a body hold; an empty body leaves it out.
pub open spec fn key_in(body: Seq<u8>) -> Result<Option<Seq<char>>, Seq<char>> {
    if body.len() == 0 {
        Ok(None)
    } else {
        match json_read(body) {
            Err(text) => Err("body must be JSON: "@ + text),
            Ok(value) => key_of(value),
        }
    }
}

/// A record as the operator sees it.
pub open spec fn row_view(n: NodeView) -> JsonView {
    JsonView::Object(
        no_fields().insert("alias"@, JsonView::Text(n.alias)).insert(
            "public_key"@,
            JsonView::Text(n.public_key),
        ).insert("status"@, JsonView::Text(n.status)).insert(
            "created_at"@,
            JsonView::Uint(n.created_at),
        ),
    )
}

pub open spec fn json_reason(status: u16) -> Seq<char> {
    match status {
        200 => "OK"@,
        201 => "Created"@,
        400 => "Bad Request"@,
        404 => "Not Found"@,
        409 => "Conflict"@,
        _ => "OK"@,
    }
}

/// A JSON response.
pub open spec fn json_bytes(status: u16, value: JsonView) -> Seq<u8> {
    response(status, json_reason(status), "application/json"@, Seq::empty(), json_text(value))
}

/// What a route does to the registry, and what it answers.
pub open spec fn served(
    s: TableView<NodeView>,
    route: RouteView,
    body: Seq<u8>,
    now: u64,
) -> (TableView<NodeView>, Seq<u8>) {
    match route {
        RouteView::Create => match pair_in(body) {
            Err(text) => (s, plain_response(400, text)),
            Ok((alias, key)) => (
                written(s, create_puts(s.rows, alias, key, now)),
                match create_answer(s.rows, alias, key, now) {
                    Ok(row) => json_bytes(201, row_view(row)),
                    Err(error) => plain_response(400, node_error_text(error)),
                },
            ),
        },
        RouteView::List => (
            s,
            json_bytes(200, JsonView::Array(s.rows.map_values(|n: NodeView| row_view(n)))),
        ),
        RouteView::Approve(alias) => match key_in(body) {
            Err(text) => (s, plain_response(400, text)),
            Ok(key) => match approve_target(s.rows, alias, key) {
                Ok(at) => (
                    written(s, approve_puts(s.rows, alias, at)),
                    json_bytes(200, row_view(with_status(s.rows[at], "approved"@))),
                ),
                Err(error) => (s, plain_response(409, node_error_text(error))),
            },
        },
        RouteView::Revoke(alias) => match key_in(body) {
            Err(text) => (s, plain_response(400, text)),
            Ok(key) => {
                let dead = revocations(s.rows, alias, key, s.rows.len());
                (
                    written(s, dead),
                    if dead.len() > 0 {
                        json_bytes(
                            200,
                            JsonView::Object(
                                no_fields().insert("revoked"@, JsonView::Uint(dead.len() as u64)),
                            ),
                        )
                    } else {
                        plain_response(409, node_error_text(NodeErrorView::NoLiveRecord(alias)))
                    },
                )
            },
        },
        RouteView::Unknown => (s, plain_response(404, "unknown admin route"@)),
    }
}

/// What a request under the prefix does and answers; nothing for any other
/// request.
pub open spec fn administered(
    s: TableView<NodeView>,
    method: Seq<char>,
    path: Seq<char>,
    body: Seq<u8>,
    now: u64,
) -> (TableView<NodeView>, Option<Seq<u8>>) {
    if under_admin(path) {
        let (after, answer) = served(s, route_of(method, behind(path, "/admin"@)), body, now);
        (after, Some(answer))
    } else {
        (s, None)
    }
}

pub open spec fn text_result(r: Result<String, String>) -> Result<Seq<char>, Seq<char>> {
    match r {
        Ok(text) => Ok(text@),
        Err(text) => Err(text@),
    }
}

pub open spec fn pair_result(r: Result<(String, String), String>) -> Result<
    (Seq<char>, Seq<char>),
    Seq<char>,
> {
    match r {
        Ok((alias, key)) => Ok((alias@, key@)),
        Err(text) => Err(text@),
    }
}

pub open spec fn key_result(r: Result<Option<String>, String>) -> Result<
    Option<Seq<char>>,
    Seq<char>,
> {
    match r {
        Ok(Some(key)) => Ok(Some(key@)),
        Ok(None) => Ok(None),
        Err(text) => Err(text@),
    }
}

pub open spec fn answer_view(answer: Option<Vec<u8>>) -> Option<Seq<u8>> {
    match answer {
        Some(bytes) => Some(bytes@),
        None => None,
    }
}

/// The route that a method and the path behind `/admin` mean.
pub fn route(method: &str, rest: &str) -> (r: Route)
    ensures
        r@ == route_of(method@, rest@),
{
    proof {
        reveal_strlit("POST");
        reveal_strlit("GET");
        reveal_strlit("DELETE");
        assert("POST"@.len() != "GET"@.len() && "POST"@.len() != "DELETE"@.len());
    }
    if same(method, "POST") {
        if same(rest, "/nodes") {
            return Route::Create;
        }
        match strip_prefix(rest, "/nodes/") {
            Some(name) => match strip_suffix(name, "/approve") {
                Some(alias) => Route::Approve(alias.to_string()),
                None => Route::Unknown,
            },
            None => Route::Unknown,
        }
    } else if same(method, "GET") {
        if same(rest, "/nodes") {
            Route::List
        } else {
            Route::Unknown
        }
    } else if same(method, "DELETE") {
        match strip_prefix(rest, "/nodes/") {
            Some(name) => {
                let chars = chars_of(name);
                let n: usize = chars.len();
                let slash: usize = find_char(&chars, '/', 0, n);
                assert(slash < n ==> name@[slash as int] == '/');
                if n > 0 && slash == n {
                    Route::Revoke(name.to_string())
                } else {
                    Route::Unknown
                }
            },
            None => Route::Unknown,
        }
    } else {
        Route::Unknown
    }
}

/// A field that must be a text and not empty.
fn required_text(value: &serde_json::Value, key: &str) -> (r: Result<String, String>)
    ensures
        text_result(r) == required(json_view(*value), key@),
{
    if let Some(v) = field(value, key) {
        if let Some(text) = as_text(v) {
            if !text.is_empty() {
                return Ok(text.to_string());
            }
        }
    }
    let mut text = "`".to_string();
    text.append(key);
    text.append("` is required");
    Err(text)
}

/// The alias and the key in a body that was read.
pub fn read_pair(value: &serde_json::Value) -> (r: Result<(String, String), String>)
    ensures
        pair_result(r) == pair_of(json_view(*value)),
{
    match required_text(value, "alias") {
        Err(text) => Err(text),
        Ok(alias) => match required_text(value, "public_key") {
            Err(text) => Err(text),
            Ok(key) => Ok((alias, key)),
        },
    }
}

/// The key in a body that was read and may leave it out.
pub fn read_key(value: &serde_json::Value) -> (r: Result<Option<String>, String>)
    ensures
        key_result(r) == key_of(json_view(*value)),
{
    match field(value, "public_key") {
        None => Ok(None),
        Some(v) => {
            if let Some(text) = as_text(v) {
                if !text.is_empty() {
                    return Ok(Some(text.to_string()));
                }
            }
            Err("`public_key` must be a non-empty string".to_string())
        },
    }
}

fn not_json(cause: String) -> (text: String)
    ensures
        text@ == "body must be JSON: "@ + cause@,
{
    let mut text = "body must be JSON: ".to_string();
    text.append(cause.as_str());
    text
}

/// The alias and the key that the bytes of a body hold.
pub fn parse_pair(body: &[u8]) -> (r: Result<(String, String), String>)
    ensures
        pair_result(r) == pair_in(body@),
{
    match from_json(body) {
        Err(cause) => Err(not_json(cause)),
        Ok(value) => read_pair(&value),
    }
}

/// The key that the bytes of a body hold; an empty body leaves it out.
pub fn optional_key(body: &[u8]) -> (r: Result<Option<String>, String>)
    ensures
        key_result(r) == key_in(body@),
{
    if body.len() == 0 {
        return Ok(None);
    }
    match from_json(body) {
        Err(cause) => Err(not_json(cause)),
        Ok(value) => read_key(&value),
    }
}

/// A record as the operator sees it.
pub fn row_json(n: &Node) -> (value: serde_json::Value)
    ensures
        json_view(value) == row_view(n@),
{
    let mut value = object();
    put_field(&mut value, "alias", of_text(n.alias.as_str()));
    put_field(&mut value, "public_key", of_text(n.public_key.as_str()));
    put_field(&mut value, "status", of_text(n.status.as_str()));
    put_field(&mut value, "created_at", of_u64(n.created_at));
    value
}

fn json_reason_text(status: u16) -> (text: &'static str)
    ensures
        text@ == json_reason(status),
{
    match status {
        200 => "OK",
        201 => "Created",
        400 => "Bad Request",
        404 => "Not Found",
        409 => "Conflict",
        _ => "OK",
    }
}

/// A JSON response. Its head ends where the value begins, and it announces
/// the length of the value.
pub fn json_response(status: u16, value: &serde_json::Value) -> (bytes: Vec<u8>)
    ensures
        bytes@ == json_bytes(status, json_view(*value)),
        forall|text: Seq<char>| #[trigger]
            frames(bytes@, json_text(json_view(*value)), text),
        declared_length(decode_utf8(bytes@)) == json_text(json_view(*value)).len(),
{
    proof {
        reveal_strlit("");
        assert(""@ =~= Seq::<char>::empty());
    }
    let body = to_json(value);
    proof {
        assert(body.len() <= usize::MAX);
        assert forall|text: Seq<char>| #[trigger]
            frames(
                json_bytes(status, json_view(*value)),
                json_text(json_view(*value)),
                text,
            ) by {
            json_answer_frames_its_value(status, json_view(*value), text);
        }
        json_answer_frames_its_value(status, json_view(*value), Seq::empty());
    }
    respond(status, json_reason_text(status), "application/json", "", body.as_slice())
}

/// The records of a listing.
fn rows_json(rows: &Vec<Node>) -> (value: serde_json::Value)
    ensures
        json_view(value) == JsonView::Array(views(rows@).map_values(|n: NodeView| row_view(n))),
{
    let mut items: Vec<serde_json::Value> = Vec::new();
    let mut i: usize = 0;
    while i < rows.len()
        invariant
            i <= rows@.len(),
            items@.len() == i,
            forall|j: int| 0 <= j < i ==> json_view(#[trigger] items@[j]) == row_view(rows@[j]@),
        decreases rows.len() - i,
    {
        items.push(row_json(&rows[i]));
        i = i + 1;
    }
    proof {
        assert(items@.map_values(|v: serde_json::Value| json_view(v)) =~= views(
            rows@,
        ).map_values(|n: NodeView| row_view(n)));
    }
    of_list(items)
}

/// Serves a route at a given time.
pub fn serve_route(nodes: &mut NodeStore, route: Route, body: &[u8], now: u64) -> (answer: Vec<u8>)
    requires
        old(nodes).wf(),
        route is Create ==> old(nodes).has_room(),
    ensures
        final(nodes).wf(),
        (final(nodes)@, answer@) == served(old(nodes)@, route@, body@, now),
{
    proof {
        lemma_written_none(nodes@);
    }
    match route {
        Route::Create => match parse_pair(body) {
            Err(text) => plain(400, text.as_str()),
            Ok((alias, key)) => match nodes.create_at(alias.as_str(), key.as_str(), now) {
                Ok(row) => json_response(201, &row_json(&row)),
                Err(error) => plain(400, error.to_string().as_str()),
            },
        },
        Route::List => json_response(200, &rows_json(&nodes.list())),
        Route::Approve(alias) => match optional_key(body) {
            Err(text) => plain(400, text.as_str()),
            Ok(key) => {
                let approved = match &key {
                    Some(k) => nodes.approve(alias.as_str(), Some(k.as_str())),
                    None => nodes.approve(alias.as_str(), None),
                };
                match approved {
                    Ok(row) => json_response(200, &row_json(&row)),
                    Err(error) => plain(409, error.to_string().as_str()),
                }
            },
        },
        Route::Revoke(alias) => match optional_key(body) {
            Err(text) => plain(400, text.as_str()),
            Ok(key) => {
                let revoked = match &key {
                    Some(k) => nodes.revoke(alias.as_str(), Some(k.as_str())),
                    None => nodes.revoke(alias.as_str(), None),
                };
                match revoked {
                    Ok(n) => {
                        let mut value = object();
                        put_field(&mut value, "revoked", of_u64(n as u64));
                        json_response(200, &value)
                    },
                    Err(error) => plain(409, error.to_string().as_str()),
                }
            },
        },
        Route::Unknown => plain(404, "unknown admin route"),
    }
}

/// Serves a request under `/admin` at a given time; nothing for any other
/// path.
pub fn serve_admin_at(
    nodes: &mut NodeStore,
    method: &str,
    path: &str,
    body: &[u8],
    now: u64,
) -> (answer: Option<Vec<u8>>)
    requires
        old(nodes).wf(),
        creates(method@, path@) ==> old(nodes).has_room(),
    ensures
        final(nodes).wf(),
        (final(nodes)@, answer_view(answer)) == administered(
            old(nodes)@,
            method@,
            path@,
            body@,
            now,
        ),
{
    proof {
        reveal_strlit("/admin");
        reveal_strlit("/admin/");
        assert("/admin/"@.take(6) =~= "/admin"@);
        if starts_with(path@, "/admin/"@) {
            assert(path@.take(6) =~= path@.take(7).take(6));
        }
        if path@ == "/admin"@ {
            assert(path@.take(6) =~= path@);
        }
    }
    if !same(path, "/admin") && strip_prefix(path, "/admin/").is_none() {
        return None;
    }
    match strip_prefix(path, "/admin") {
        None => None,
        Some(rest) => Some(serve_route(nodes, route(method, rest), body, now)),
    }
}

/// Serves a request under `/admin`, at the time the clock shows; nothing for
/// any other path.
pub fn serve_admin(nodes: &mut NodeStore, method: &str, path: &str, body: &[u8]) -> (answer: Option<
    Vec<u8>,
>)
    requires
        old(nodes).wf(),
        creates(method@, path@) ==> old(nodes).has_room(),
    ensures
        final(nodes).wf(),
        exists|time: std::time::SystemTime|
            (final(nodes)@, answer_view(answer)) == administered(
                old(nodes)@,
                method@,
                path@,
                body@,
                stamp(#[trigger] epoch_nanos(time)),
            ),
{
    let now: u64 = now_ms();
    serve_admin_at(nodes, method, path, body, now)
}

/// The registry changes only where the operator is told of a success: a
/// request that is refused, and a listing, leave it as it is.
pub proof fn refusals_change_nothing(
    s: TableView<NodeView>,
    route: RouteView,
    body: Seq<u8>,
    now: u64,
)
    ensures
        ({
            let (after, answer) = served(s, route, body, now);
            after != s ==> route != RouteView::List && exists|value: JsonView|
                answer == #[trigger] json_bytes(200, value) || answer == json_bytes(201, value)
        }),
{
    lemma_written_none(s);
    let (after, answer) = served(s, route, body, now);
    match route {
        RouteView::Create => {
            if let Ok((alias, key)) = pair_in(body) {
                match create_answer(s.rows, alias, key, now) {
                    Ok(row) => {
                        let shown = json_bytes(200, row_view(row));
                        assert(answer == json_bytes(201, row_view(row)));
                    },
                    Err(_) => {},
                }
            }
        },
        RouteView::Revoke(alias) => {
            if let Ok(key) = key_in(body) {
                let dead = revocations(s.rows, alias, key, s.rows.len());
                if dead.len() == 0 {
                    assert(dead =~= Seq::<NodeView>::empty());
                }
            }
        },
        _ => {},
    }
}

/// Whatever is asked of the admin surface, a valid registry stays valid: in
/// particular no alias ever has two approved keys.
pub proof fn administration_stays_valid(
    s: TableView<NodeView>,
    method: Seq<char>,
    path: Seq<char>,
    body: Seq<u8>,
    now: u64,
)
    requires
        valid(s.rows),
        creates(method, path) ==> watermark(s.rows) < u64::MAX,
    ensures
        valid(administered(s, method, path, body, now).0.rows),
{
    if under_admin(path) {
        match route_of(method, behind(path, "/admin"@)) {
            RouteView::Create => {
                if let Ok((alias, key)) = pair_in(body) {
                    registry_stays_valid(s.rows, alias, key, now, None);
                }
            },
            RouteView::Approve(alias) => {
                if let Ok(key) = key_in(body) {
                    registry_stays_valid(s.rows, alias, alias, now, key);
                }
            },
            RouteView::Revoke(alias) => {
                if let Ok(key) = key_in(body) {
                    registry_stays_valid(s.rows, alias, alias, now, key);
                }
            },
            _ => {},
        }
    }
}

/// A record that was created is answered with 201, and a listing then shows
/// it last, behind every record that was there, in the order they had. The
/// listing changes nothing.
pub proof fn created_record_is_listed_last(
    s: TableView<NodeView>,
    body: Seq<u8>,
    now: u64,
    rest: Seq<u8>,
    later: u64,
)
    requires
        ordered(s.rows),
        watermark(s.rows) < u64::MAX,
    ensures
        pair_in(body) matches Ok(pair) ==> !some_row(s.rows, Pick::OwnLive, pair.0, pair.1) ==> {
            let row = fresh(s.rows, pair.0, pair.1, now);
            let (after, answer) = administered(s, "POST"@, "/admin/nodes"@, body, now);
            &&& answer == Some(json_bytes(201, row_view(row)))
            &&& after.rows == s.rows.push(row)
            &&& administered(after, "GET"@, "/admin/nodes"@, rest, later) == (
                after,
                Some(
                    json_bytes(
                        200,
                        JsonView::Array(
                            s.rows.map_values(|n: NodeView| row_view(n)).push(row_view(row)),
                        ),
                    ),
                ),
            )
        },
{
    reveal_strlit("POST");
    reveal_strlit("GET");
    reveal_strlit("/admin/");
    reveal_strlit("/admin");
    reveal_strlit("/admin/nodes");
    reveal_strlit("/nodes");
    assert("POST"@.len() != "GET"@.len());
    assert("/admin/nodes"@.take(7) =~= "/admin/"@);
    assert(behind("/admin/nodes"@, "/admin"@) =~= "/nodes"@);
    if let Ok(pair) = pair_in(body) {
        let row = fresh(s.rows, pair.0, pair.1, now);
        lemma_put_appends(s.rows, row);
        lemma_put_one(s.rows, row);
        assert(s.rows.push(row).map_values(|n: NodeView| row_view(n)) =~= s.rows.map_values(
            |n: NodeView| row_view(n),
        ).push(row_view(row)));
    }
}

}
