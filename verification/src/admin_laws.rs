//! What the admin surface does, said of the records before and after and of
//! the answer.

use crate::admin::{administered, before, behind, json_bytes, route_of, row_view, RouteView};
use crate::code_export::plain_response;
use crate::dispatch_laws::holds_text;
use crate::json::{field_of, json_read, JsonView};
use crate::node_laws::{after_revoke, lemma_approve};
use crate::nodes::{
    approve_target, create_answer, create_puts, first, fresh, lemma_first, lemma_first_is,
    lemma_revocations, lemma_status_words, node_error_text, picks, revocable, revocations,
    some_row, with_status, NodeErrorView, NodeView, Pick,
};
use crate::table::{
    journaled, lemma_journaled, lemma_put_appends, lemma_put_one, lemma_watermark,
    lemma_written_none, ordered, watermark, TableView,
};
use crate::text::{ends_with, starts_with};
use vstd::prelude::*;

verus! {

/// The record is as it was, but revoked.
pub open spec fn revoked_from(before: NodeView, after: NodeView) -> bool {
    &&& after.status == "revoked"@
    &&& after.id == before.id
    &&& after.alias == before.alias
    &&& after.public_key == before.public_key
    &&& after.created_at == before.created_at
    &&& after.global == before.global
}

/// The body is JSON and its `public_key` is this value.
pub open spec fn body_says(body: Seq<u8>, key: JsonView) -> bool {
    body.len() > 0 && (json_read(body) matches Ok(value) && field_of(value, "public_key"@) == Some(
        key,
    ))
}

/// The body says nothing of a key: it is empty, or JSON without the field.
pub open spec fn body_is_silent(body: Seq<u8>) -> bool {
    body.len() == 0 || (json_read(body) matches Ok(value) && field_of(value, "public_key"@) is None)
}

/// The records of an alias and a key that are not revoked.
pub open spec fn live_of_key(rows: Seq<NodeView>, alias: Seq<char>, key: Seq<char>) -> Seq<NodeView> {
    rows.filter(|n: NodeView| n.alias == alias && n.public_key == key && n.status != "revoked"@)
}

/// The records of an alias that are not revoked.
pub open spec fn live_of_alias(rows: Seq<NodeView>, alias: Seq<char>) -> Seq<NodeView> {
    rows.filter(|n: NodeView| n.alias == alias && n.status != "revoked"@)
}

/// The answer to a revocation of `n` records.
pub open spec fn answers_revoked(answer: Option<Seq<u8>>, alias: Seq<char>, n: nat) -> bool {
    if n > 0 {
        answer == Some(
            json_bytes(200, JsonView::Object(map!["revoked"@ => JsonView::Uint(n as u64)])),
        )
    } else {
        answer == Some(plain_response(409, "no live record for `"@ + alias + "`"@))
    }
}

proof fn lemma_number_revoked(
    rows: Seq<NodeView>,
    alias: Seq<char>,
    key: Option<Seq<char>>,
    falls: spec_fn(NodeView) -> bool,
    n: nat,
)
    requires
        n <= rows.len(),
        forall|r: NodeView| #[trigger] falls(r) == revocable(r, alias, key),
    ensures
        revocations(rows, alias, key, n).len() == rows.take(n as int).filter(falls).len(),
    decreases n,
{
    reveal(Seq::filter);
    if n > 0 {
        let part = rows.take(n as int);
        assert(part.drop_last() =~= rows.take(n - 1));
        assert(part.last() == rows[n - 1]);
        lemma_number_revoked(rows, alias, key, falls, (n - 1) as nat);
        assert(falls(part.last()) == revocable(rows[n - 1], alias, key));
    }
}

/// The path of an alias, as the routes read it.
proof fn lemma_alias_path(alias: Seq<char>)
    ensures
        ({
            let path = "/admin/nodes/"@ + alias;
            &&& crate::admin::under_admin(path)
            &&& crate::admin::behind(path, "/admin"@) == "/nodes/"@ + alias
            &&& crate::text::starts_with("/nodes/"@ + alias, "/nodes/"@)
            &&& crate::admin::behind("/nodes/"@ + alias, "/nodes/"@) == alias
            &&& "/nodes/"@ + alias != "/nodes"@
        }),
{
    reveal_strlit("/admin");
    reveal_strlit("/admin/");
    reveal_strlit("/nodes");
    reveal_strlit("/nodes/");
    reveal_strlit("/admin/nodes/");
    let path = "/admin/nodes/"@ + alias;
    assert(path.take("/admin/"@.len() as int) =~= "/admin/"@);
    assert(path.skip("/admin"@.len() as int) =~= "/nodes/"@ + alias);
    assert(("/nodes/"@ + alias).take("/nodes/"@.len() as int) =~= "/nodes/"@);
    assert(("/nodes/"@ + alias).skip("/nodes/"@.len() as int) =~= alias);
    assert(("/nodes/"@ + alias).len() > "/nodes"@.len());
}

proof fn lemma_methods()
    ensures
        "POST"@ != "GET"@,
        "POST"@ != "DELETE"@,
        "GET"@ != "DELETE"@,
{
    reveal_strlit("POST");
    reveal_strlit("GET");
    reveal_strlit("DELETE");
    assert("POST"@.len() != "GET"@.len() && "POST"@.len() != "DELETE"@.len());
    assert("GET"@.len() != "DELETE"@.len());
}

/// A revocation that names a key takes exactly the live records of the alias
/// and that key: every record of another alias or another key stays as it
/// was, and so does one that is revoked already. The answer is the number of
/// records that fell, and a refusal where there was none.
pub proof fn revocation_takes_the_named_key_only(
    s: TableView<NodeView>,
    alias: Seq<char>,
    key: Seq<char>,
    body: Seq<u8>,
    now: u64,
)
    requires
        ordered(s.rows),
        s.rows.len() <= usize::MAX,
        alias.len() > 0,
        !alias.contains('/'),
        key.len() > 0,
    ensures
        body_says(body, JsonView::Text(key)) ==> {
            let (after, answer) = administered(
                s,
                "DELETE"@,
                "/admin/nodes/"@ + alias,
                body,
                now,
            );
            &&& after.rows.len() == s.rows.len()
            &&& forall|i: int|
                0 <= i < s.rows.len() && (s.rows[i].alias != alias || s.rows[i].public_key != key
                    || s.rows[i].status == "revoked"@) ==> #[trigger] after.rows[i] == s.rows[i]
            &&& forall|i: int|
                0 <= i < s.rows.len() && s.rows[i].alias == alias && s.rows[i].public_key == key
                    && s.rows[i].status != "revoked"@ ==> revoked_from(
                    s.rows[i],
                    #[trigger] after.rows[i],
                )
            &&& answers_revoked(answer, alias, live_of_key(s.rows, alias, key).len())
            &&& live_of_key(s.rows, alias, key).len() == 0 ==> after == s
        },
{
    lemma_revoked(s, alias, Some(key), body, now);
    let falls = |n: NodeView|
        n.alias == alias && n.public_key == key && n.status != "revoked"@;
    assert(s.rows.take(s.rows.len() as int) =~= s.rows);
    lemma_number_revoked(s.rows, alias, Some(key), falls, s.rows.len());
    assert(live_of_key(s.rows, alias, key) == s.rows.filter(falls));
}

/// A revocation without a key takes every live record of the alias, whatever
/// its key, and no record of another alias.
pub proof fn revocation_without_a_key_takes_the_alias(
    s: TableView<NodeView>,
    alias: Seq<char>,
    body: Seq<u8>,
    now: u64,
)
    requires
        ordered(s.rows),
        s.rows.len() <= usize::MAX,
        alias.len() > 0,
        !alias.contains('/'),
    ensures
        body_is_silent(body) ==> {
            let (after, answer) = administered(
                s,
                "DELETE"@,
                "/admin/nodes/"@ + alias,
                body,
                now,
            );
            &&& after.rows.len() == s.rows.len()
            &&& forall|i: int|
                0 <= i < s.rows.len() && (s.rows[i].alias != alias || s.rows[i].status
                    == "revoked"@) ==> #[trigger] after.rows[i] == s.rows[i]
            &&& forall|i: int|
                0 <= i < s.rows.len() && s.rows[i].alias == alias && s.rows[i].status
                    != "revoked"@ ==> revoked_from(s.rows[i], #[trigger] after.rows[i])
            &&& answers_revoked(answer, alias, live_of_alias(s.rows, alias).len())
            &&& live_of_alias(s.rows, alias).len() == 0 ==> after == s
        },
{
    lemma_revoked(s, alias, None, body, now);
    let falls = |n: NodeView| n.alias == alias && n.status != "revoked"@;
    assert(s.rows.take(s.rows.len() as int) =~= s.rows);
    lemma_number_revoked(s.rows, alias, None, falls, s.rows.len());
    assert(live_of_alias(s.rows, alias) == s.rows.filter(falls));
}

proof fn lemma_revoked(
    s: TableView<NodeView>,
    alias: Seq<char>,
    key: Option<Seq<char>>,
    body: Seq<u8>,
    now: u64,
)
    requires
        ordered(s.rows),
        alias.len() > 0,
        !alias.contains('/'),
        key matches Some(k) ==> k.len() > 0,
    ensures
        (match key {
            Some(k) => body_says(body, JsonView::Text(k)),
            None => body_is_silent(body),
        }) ==> {
            let (after, answer) = administered(s, "DELETE"@, "/admin/nodes/"@ + alias, body, now);
            let fallen = revocations(s.rows, alias, key, s.rows.len());
            &&& after.rows.len() == s.rows.len()
            &&& forall|i: int|
                0 <= i < s.rows.len() ==> #[trigger] after.rows[i] == if revocable(
                    s.rows[i],
                    alias,
                    key,
                ) {
                    NodeView { status: "revoked"@, ..s.rows[i] }
                } else {
                    s.rows[i]
                }
            &&& answers_revoked(answer, alias, fallen.len())
            &&& fallen.len() == 0 ==> after == s
        },
{
    lemma_methods();
    lemma_alias_path(alias);
    lemma_revocations(s.rows, alias, key, s.rows.len());
    lemma_written_none(s);
    let fallen = revocations(s.rows, alias, key, s.rows.len());
    if fallen.len() == 0 {
        assert(fallen =~= Seq::empty());
    }
    let n = JsonView::Uint(fallen.len() as u64);
    assert(crate::json::no_fields().insert("revoked"@, n) =~= map!["revoked"@ => n]);
    assert(node_error_text(NodeErrorView::NoLiveRecord(alias)) == "no live record for `"@ + alias
        + "`"@);
}

/// A record as the operator sees it: an object of its alias, its key, its
/// status and the time of its creation, and of nothing else.
pub open spec fn shows(value: JsonView, n: NodeView) -> bool {
    &&& value matches JsonView::Object(fields)
    &&& fields.dom() =~= set!["alias"@, "public_key"@, "status"@, "created_at"@]
    &&& fields["alias"@] == JsonView::Text(n.alias)
    &&& fields["public_key"@] == JsonView::Text(n.public_key)
    &&& fields["status"@] == JsonView::Text(n.status)
    &&& fields["created_at"@] == JsonView::Uint(n.created_at)
}

/// The answer is a record, under a status.
pub open spec fn answers_record(answer: Option<Seq<u8>>, status: u16, n: NodeView) -> bool {
    exists|value: JsonView| answer == Some(#[trigger] json_bytes(status, value)) && shows(value, n)
}

proof fn lemma_shows(n: NodeView)
    ensures
        shows(row_view(n), n),
{
    reveal_strlit("alias");
    reveal_strlit("public_key");
    reveal_strlit("status");
    reveal_strlit("created_at");
    assert("alias"@.len() == 5 && "status"@.len() == 6);
    assert("public_key"@.len() == 10 && "created_at"@.len() == 10);
    assert("public_key"@[0] == 'p' && "created_at"@[0] == 'c');
}

proof fn lemma_answers(status: u16, n: NodeView)
    ensures
        answers_record(Some(json_bytes(status, row_view(n))), status, n),
{
    lemma_shows(n);
}

/// The path of the registry itself, as the routes read it.
proof fn lemma_nodes_path()
    ensures
        crate::admin::under_admin("/admin/nodes"@),
        behind("/admin/nodes"@, "/admin"@) == "/nodes"@,
{
    reveal_strlit("/admin");
    reveal_strlit("/admin/");
    reveal_strlit("/nodes");
    reveal_strlit("/admin/nodes");
    assert("/admin/nodes"@.take("/admin/"@.len() as int) =~= "/admin/"@);
    assert("/admin/nodes"@.skip("/admin"@.len() as int) =~= "/nodes"@);
}

/// A listing shows every record, in the order of the table, and changes
/// nothing.
pub proof fn listing_shows_every_record(s: TableView<NodeView>, body: Seq<u8>, now: u64)
    ensures
        administered(s, "GET"@, "/admin/nodes"@, body, now).0 == s,
        exists|items: Seq<JsonView>|
            {
                &&& administered(s, "GET"@, "/admin/nodes"@, body, now).1 == Some(
                    #[trigger] json_bytes(200, JsonView::Array(items)),
                )
                &&& items.len() == s.rows.len()
                &&& forall|i: int| 0 <= i < items.len() ==> shows(#[trigger] items[i], s.rows[i])
            },
{
    lemma_methods();
    lemma_nodes_path();
    let items = s.rows.map_values(|n: NodeView| row_view(n));
    assert forall|i: int| 0 <= i < items.len() implies shows(#[trigger] items[i], s.rows[i]) by {
        lemma_shows(s.rows[i]);
    }
    assert(administered(s, "GET"@, "/admin/nodes"@, body, now).1 == Some(
        json_bytes(200, JsonView::Array(items)),
    ));
}

/// The record is a live one of the alias and the key.
pub open spec fn is_live_of(n: NodeView, alias: Seq<char>, key: Seq<char>) -> bool {
    n.alias == alias && n.public_key == key && n.status != "revoked"@
}

/// It is the first live record of the alias and the key.
pub open spec fn first_live_of(
    rows: Seq<NodeView>,
    i: int,
    alias: Seq<char>,
    key: Seq<char>,
) -> bool {
    &&& 0 <= i < rows.len()
    &&& is_live_of(rows[i], alias, key)
    &&& forall|j: int| 0 <= j < i ==> !is_live_of(#[trigger] rows[j], alias, key)
}

proof fn lemma_first_live(rows: Seq<NodeView>, alias: Seq<char>, key: Seq<char>)
    ensures
        forall|i: int|
            first_live_of(rows, i, alias, key) ==> first(rows, Pick::OwnLive, alias, key) == i
                && some_row(rows, Pick::OwnLive, alias, key),
        (forall|j: int| 0 <= j < rows.len() ==> !is_live_of(#[trigger] rows[j], alias, key))
            <==> !some_row(rows, Pick::OwnLive, alias, key),
{
    lemma_first(rows, Pick::OwnLive, alias, key);
    assert forall|i: int| first_live_of(rows, i, alias, key) implies first(
        rows,
        Pick::OwnLive,
        alias,
        key,
    ) == i && some_row(rows, Pick::OwnLive, alias, key) by {
        assert forall|j: int| 0 <= j < i implies !#[trigger] picks(
            rows[j],
            Pick::OwnLive,
            alias,
            key,
        ) by {
            assert(!is_live_of(rows[j], alias, key));
        }
        assert(picks(rows[i], Pick::OwnLive, alias, key));
        lemma_first_is(rows, Pick::OwnLive, alias, key, i);
    }
    if some_row(rows, Pick::OwnLive, alias, key) {
        assert(is_live_of(rows[first(rows, Pick::OwnLive, alias, key)], alias, key));
    } else {
        assert forall|j: int| 0 <= j < rows.len() implies !is_live_of(
            #[trigger] rows[j],
            alias,
            key,
        ) by {
            assert(!picks(rows[j], Pick::OwnLive, alias, key));
        }
    }
}

/// A request for a record of an alias and a key that has no live one adds a
/// pending record behind the others, stamped with the time, under an id above
/// theirs, and answers with it. Where there is a live one, it is the answer,
/// and nothing changes.
pub proof fn creation_adds_one_pending_record(
    s: TableView<NodeView>,
    alias: Seq<char>,
    key: Seq<char>,
    body: Seq<u8>,
    now: u64,
)
    requires
        ordered(s.rows),
        watermark(s.rows) < u64::MAX,
        alias.len() > 0,
        key.len() > 0,
    ensures
        (json_read(body) matches Ok(value) && holds_text(value, "alias"@, alias) && holds_text(
            value,
            "public_key"@,
            key,
        )) ==> {
            let (after, answer) = administered(s, "POST"@, "/admin/nodes"@, body, now);
            &&& (forall|j: int|
                0 <= j < s.rows.len() ==> !is_live_of(#[trigger] s.rows[j], alias, key)) ==> {
                let new = after.rows.last();
                &&& after.rows.len() == s.rows.len() + 1
                &&& after.rows.drop_last() == s.rows
                &&& after.writes == s.writes.push(new)
                &&& new.alias == alias
                &&& new.public_key == key
                &&& new.status == "pending"@
                &&& new.created_at == now
                &&& new.global == 0
                &&& forall|j: int| 0 <= j < s.rows.len() ==> (#[trigger] s.rows[j]).id < new.id
                &&& answers_record(answer, 201, new)
            }
            &&& forall|i: int| #[trigger]
                first_live_of(s.rows, i, alias, key) ==> after == s && answers_record(
                    answer,
                    201,
                    s.rows[i],
                )
        },
{
    lemma_methods();
    lemma_nodes_path();
    lemma_first_live(s.rows, alias, key);
    lemma_written_none(s);
    if json_read(body) matches Ok(value) && holds_text(value, "alias"@, alias) && holds_text(
        value,
        "public_key"@,
        key,
    ) {
        let new = fresh(s.rows, alias, key, now);
        let (after, answer) = administered(s, "POST"@, "/admin/nodes"@, body, now);
        if some_row(s.rows, Pick::OwnLive, alias, key) {
            let at = first(s.rows, Pick::OwnLive, alias, key);
            assert(answer == Some(json_bytes(201, row_view(s.rows[at]))));
            lemma_answers(201, s.rows[at]);
        } else {
            assert(create_puts(s.rows, alias, key, now) == seq![new]);
            lemma_put_appends(s.rows, new);
            lemma_put_one(s.rows, new);
            assert(after.rows == s.rows.push(new));
            assert(after.rows.drop_last() =~= s.rows);
            assert(after.writes =~= s.writes.push(new));
            assert forall|j: int| 0 <= j < s.rows.len() implies (#[trigger] s.rows[j]).id
                < new.id by {
                lemma_watermark(s.rows, j);
            }
            assert(create_answer(s.rows, alias, key, now) == Ok::<NodeView, NodeErrorView>(new));
            lemma_answers(201, new);
        }
    }
}

/// The path of an approval, as the routes read it.
proof fn lemma_approve_path(alias: Seq<char>)
    ensures
        ({
            let path = "/admin/nodes/"@ + alias + "/approve"@;
            &&& crate::admin::under_admin(path)
            &&& route_of("POST"@, behind(path, "/admin"@)) == RouteView::Approve(alias)
        }),
{
    lemma_methods();
    lemma_alias_path(alias + "/approve"@);
    let name = alias + "/approve"@;
    assert("/admin/nodes/"@ + alias + "/approve"@ =~= "/admin/nodes/"@ + name);
    assert(name.skip(name.len() - "/approve"@.len()) =~= "/approve"@);
    assert(before(name, "/approve"@) =~= alias);
}

/// The table after an approval of the record at `i`: it is approved, any
/// other approved record of its alias is revoked, and every other record is
/// as it was.
pub open spec fn approved_at(before: Seq<NodeView>, after: Seq<NodeView>, i: int) -> bool {
    &&& after.len() == before.len()
    &&& after[i].status == "approved"@
    &&& forall|j: int|
        0 <= j < before.len() ==> #[trigger] after[j] == NodeView {
            status: after[j].status,
            ..before[j]
        }
    &&& forall|j: int|
        0 <= j < before.len() && j != i ==> (#[trigger] after[j]).status == if before[j].alias
            == before[i].alias && before[j].status == "approved"@ {
            "revoked"@
        } else {
            before[j].status
        }
}

/// An approval that names a key approves the live record of the alias and
/// that key, takes the approval from every other record of the alias, and
/// answers with the record. Without such a record it is refused.
pub proof fn approval_of_a_named_key(
    s: TableView<NodeView>,
    alias: Seq<char>,
    key: Seq<char>,
    body: Seq<u8>,
    now: u64,
    i: int,
)
    requires
        ordered(s.rows),
        key.len() > 0,
    ensures
        body_says(body, JsonView::Text(key)) ==> {
            let (after, answer) = administered(
                s,
                "POST"@,
                "/admin/nodes/"@ + alias + "/approve"@,
                body,
                now,
            );
            &&& first_live_of(s.rows, i, alias, key) ==> approved_at(s.rows, after.rows, i)
                && answers_record(answer, 200, after.rows[i])
            &&& (forall|j: int|
                0 <= j < s.rows.len() ==> !is_live_of(#[trigger] s.rows[j], alias, key)) ==> after
                == s && answer == Some(
                plain_response(409, "no such record for `"@ + alias + "`"@),
            )
        },
{
    lemma_approve_path(alias);
    lemma_first_live(s.rows, alias, key);
    lemma_approve(s.rows, alias, Some(key));
    if first_live_of(s.rows, i, alias, key) {
        lemma_answers(200, with_status(s.rows[i], "approved"@));
    }
}

/// The record is a pending one of the alias.
pub open spec fn is_pending_of(n: NodeView, alias: Seq<char>) -> bool {
    n.alias == alias && n.status == "pending"@
}

proof fn lemma_only_pending(rows: Seq<NodeView>, alias: Seq<char>)
    ensures
        match approve_target(rows, alias, None) {
            Ok(at) => 0 <= at < rows.len() && is_pending_of(rows[at], alias) && forall|j: int|
                0 <= j < rows.len() && is_pending_of(#[trigger] rows[j], alias) ==> j == at,
            Err(error) => error == NodeErrorView::NoUniquePending(alias) && forall|i: int|
                0 <= i < rows.len() && is_pending_of(#[trigger] rows[i], alias) ==> exists|j: int|
                    0 <= j < rows.len() && j != i && is_pending_of(#[trigger] rows[j], alias),
        },
{
    let none = Seq::<char>::empty();
    let at = first(rows, Pick::Pending, alias, none);
    lemma_first(rows, Pick::Pending, alias, none);
    let rest = rows.skip(at + 1);
    match approve_target(rows, alias, None) {
        Ok(_) => {
            assert(picks(rows[at], Pick::Pending, alias, none));
            assert forall|j: int| 0 <= j < rows.len() && is_pending_of(
                #[trigger] rows[j],
                alias,
            ) implies j == at by {
                assert(picks(rows[j], Pick::Pending, alias, none));
                if j > at {
                    assert(rest[j - at - 1] == rows[j]);
                    assert(picks(rest[j - at - 1], Pick::Pending, alias, none));
                }
            }
        },
        Err(_) => {
            assert forall|i: int| 0 <= i < rows.len() && is_pending_of(
                #[trigger] rows[i],
                alias,
            ) implies exists|j: int|
                0 <= j < rows.len() && j != i && is_pending_of(#[trigger] rows[j], alias) by {
                assert(picks(rows[i], Pick::Pending, alias, none));
                assert(some_row(rows, Pick::Pending, alias, none));
                assert(picks(rows[at], Pick::Pending, alias, none));
                assert(is_pending_of(rows[at], alias));
                let k = choose|k: int|
                    0 <= k < rest.len() && #[trigger] picks(rest[k], Pick::Pending, alias, none);
                assert(rest[k] == rows[at + 1 + k]);
                assert(is_pending_of(rows[at + 1 + k], alias));
            }
        },
    }
}

/// An approval without a key approves the only pending record of the alias.
/// Where there is none, or more than one, it is refused: an approval is no
/// guess.
pub proof fn approval_without_a_key(
    s: TableView<NodeView>,
    alias: Seq<char>,
    body: Seq<u8>,
    now: u64,
    i: int,
)
    requires
        ordered(s.rows),
    ensures
        body_is_silent(body) ==> {
            let (after, answer) = administered(
                s,
                "POST"@,
                "/admin/nodes/"@ + alias + "/approve"@,
                body,
                now,
            );
            let only = 0 <= i < s.rows.len() && is_pending_of(s.rows[i], alias) && forall|j: int|
                0 <= j < s.rows.len() && is_pending_of(#[trigger] s.rows[j], alias) ==> j == i;
            &&& only ==> approved_at(s.rows, after.rows, i) && answers_record(
                answer,
                200,
                after.rows[i],
            )
            &&& (forall|k: int|
                0 <= k < s.rows.len() && is_pending_of(#[trigger] s.rows[k], alias) ==> exists|
                    j: int,
                |
                    0 <= j < s.rows.len() && j != k && is_pending_of(#[trigger] s.rows[j], alias))
                ==> after == s && answer == Some(
                plain_response(
                    409,
                    "no unique pending key for `"@ + alias + "` — approve by public_key"@,
                ),
            )
        },
{
    lemma_approve_path(alias);
    lemma_only_pending(s.rows, alias);
    lemma_approve(s.rows, alias, None);
    lemma_status_words();
    if let Ok(at) = approve_target(s.rows, alias, None) {
        lemma_answers(200, with_status(s.rows[at], "approved"@));
    }
}

/// The value holds no text under the key but an empty one.
pub open spec fn lacks(value: JsonView, key: Seq<char>) -> bool {
    forall|text: Seq<char>| #[trigger] holds_text(value, key, text) ==> text.len() == 0
}

proof fn lemma_lacks(value: JsonView, key: Seq<char>)
    requires
        lacks(value, key),
    ensures
        crate::json::text_field(value, key) matches Some(text) ==> text.len() == 0,
{
    if let Some(text) = crate::json::text_field(value, key) {
        assert(holds_text(value, key, text));
    }
}

/// A body that does not say what it must is answered 400 with what is missing,
/// and changes nothing.
pub proof fn malformed_bodies_are_refused(
    s: TableView<NodeView>,
    alias: Seq<char>,
    body: Seq<u8>,
    now: u64,
)
    requires
        alias.len() > 0,
        !alias.contains('/'),
    ensures
        ({
            let create = administered(s, "POST"@, "/admin/nodes"@, body, now);
            let approve = administered(
                s,
                "POST"@,
                "/admin/nodes/"@ + alias + "/approve"@,
                body,
                now,
            );
            let revoke = administered(s, "DELETE"@, "/admin/nodes/"@ + alias, body, now);
            &&& json_read(body) matches Err(why) ==> {
                let refusal = (s, Some(plain_response(400, "body must be JSON: "@ + why)));
                create == refusal && (body.len() > 0 ==> approve == refusal && revoke == refusal)
            }
            &&& json_read(body) matches Ok(value) ==> {
                &&& lacks(value, "alias"@) ==> create == (
                    s,
                    Some(plain_response(400, "`alias` is required"@)),
                )
                &&& !lacks(value, "alias"@) && lacks(value, "public_key"@) ==> create == (
                    s,
                    Some(plain_response(400, "`public_key` is required"@)),
                )
                &&& body.len() > 0 && field_of(value, "public_key"@) is Some && lacks(
                    value,
                    "public_key"@,
                ) ==> {
                    let refusal = (
                        s,
                        Some(plain_response(400, "`public_key` must be a non-empty string"@)),
                    );
                    approve == refusal && revoke == refusal
                }
            }
        }),
{
    lemma_methods();
    lemma_nodes_path();
    lemma_approve_path(alias);
    lemma_alias_path(alias);
    reveal_strlit("`");
    reveal_strlit("alias");
    reveal_strlit("public_key");
    reveal_strlit("` is required");
    reveal_strlit("`alias` is required");
    reveal_strlit("`public_key` is required");
    assert("`"@ + "alias"@ + "` is required"@ =~= "`alias` is required"@);
    assert("`"@ + "public_key"@ + "` is required"@ =~= "`public_key` is required"@);
    if let Ok(value) = json_read(body) {
        if lacks(value, "alias"@) {
            lemma_lacks(value, "alias"@);
        }
        if lacks(value, "public_key"@) {
            lemma_lacks(value, "public_key"@);
        }
    }
}

/// The request is one of the four that the admin surface knows.
pub open spec fn is_known(method: Seq<char>, path: Seq<char>) -> bool {
    ||| path == "/admin/nodes"@ && (method == "POST"@ || method == "GET"@)
    ||| method == "POST"@ && exists|alias: Seq<char>|
        path == #[trigger] ("/admin/nodes/"@ + alias) + "/approve"@
    ||| method == "DELETE"@ && exists|alias: Seq<char>|
        path == #[trigger] ("/admin/nodes/"@ + alias) && alias.len() > 0 && !alias.contains('/')
}

/// Any other request under the prefix is answered 404, one outside it is none
/// of the admin surface's, and neither changes anything.
pub proof fn unknown_routes_are_refused(
    s: TableView<NodeView>,
    method: Seq<char>,
    path: Seq<char>,
    body: Seq<u8>,
    now: u64,
)
    ensures
        ({
            let r = administered(s, method, path, body, now);
            let under = path == "/admin"@ || (path.len() >= 7 && path.take(7) == "/admin/"@);
            &&& !under ==> r == (s, None::<Seq<u8>>)
            &&& under ==> r.1 is Some
            &&& under && !is_known(method, path) ==> r == (
                s,
                Some(plain_response(404, "unknown admin route"@)),
            )
        }),
{
    lemma_methods();
    reveal_strlit("/admin");
    reveal_strlit("/admin/");
    reveal_strlit("/nodes");
    reveal_strlit("/nodes/");
    reveal_strlit("/admin/nodes");
    reveal_strlit("/admin/nodes/");
    reveal_strlit("/approve");
    let under = path == "/admin"@ || (path.len() >= 7 && path.take(7) == "/admin/"@);
    if under && !is_known(method, path) {
        let rest = behind(path, "/admin"@);
        assert(path =~= "/admin"@ + rest) by {
            if path != "/admin"@ {
                assert forall|k: int| 0 <= k < 6 implies path[k] == "/admin"@[k] by {
                    assert(path.take(7)[k] == path[k]);
                }
            }
        }
        if rest == "/nodes"@ {
            assert("/admin"@ + "/nodes"@ =~= "/admin/nodes"@);
        }
        if starts_with(rest, "/nodes/"@) {
            let name = behind(rest, "/nodes/"@);
            assert(rest =~= "/nodes/"@ + name);
            assert("/admin"@ + ("/nodes/"@ + name) =~= "/admin/nodes/"@ + name);
            if ends_with(name, "/approve"@) {
                let alias = before(name, "/approve"@);
                assert(name =~= alias + "/approve"@);
                assert("/admin/nodes/"@ + (alias + "/approve"@) =~= ("/admin/nodes/"@ + alias)
                    + "/approve"@);
            }
        }
        assert(route_of(method, rest) is Unknown);
    }
}

/// What a request writes is journaled.
pub proof fn administration_is_journaled(
    s: TableView<NodeView>,
    method: Seq<char>,
    path: Seq<char>,
    body: Seq<u8>,
    now: u64,
)
    ensures
        journaled(s, administered(s, method, path, body, now).0),
{
    lemma_journaled(s, Seq::empty());
    match route_of(method, behind(path, "/admin"@)) {
        RouteView::Create => {
            if let Ok((alias, key)) = crate::admin::pair_in(body) {
                lemma_journaled(s, create_puts(s.rows, alias, key, now));
            }
        },
        RouteView::Approve(alias) => {
            if let Ok(key) = crate::admin::key_in(body) {
                if let Ok(at) = approve_target(s.rows, alias, key) {
                    lemma_journaled(s, crate::nodes::approve_puts(s.rows, alias, at));
                }
            }
        },
        RouteView::Revoke(alias) => {
            if let Ok(key) = crate::admin::key_in(body) {
                lemma_journaled(s, revocations(s.rows, alias, key, s.rows.len()));
            }
        },
        _ => {},
    }
}

/// Which record an approval means, whatever the key: the first live one of
/// the alias and the key that is named, or the only pending one of the alias
/// where none is named.
pub proof fn approvals_mean_one_record(
    rows: Seq<NodeView>,
    alias: Seq<char>,
    key: Seq<char>,
    i: int,
)
    ensures
        first_live_of(rows, i, alias, key) ==> approve_target(rows, alias, Some(key)) == Ok::<
            int,
            NodeErrorView,
        >(i),
        (forall|j: int| 0 <= j < rows.len() ==> !is_live_of(#[trigger] rows[j], alias, key))
            ==> approve_target(rows, alias, Some(key)) == Err::<int, NodeErrorView>(
            NodeErrorView::NoSuchRecord(alias),
        ),
        match approve_target(rows, alias, None) {
            Ok(at) => 0 <= at < rows.len() && is_pending_of(rows[at], alias) && forall|j: int|
                0 <= j < rows.len() && is_pending_of(#[trigger] rows[j], alias) ==> j == at,
            Err(error) => error == NodeErrorView::NoUniquePending(alias) && forall|k: int|
                0 <= k < rows.len() && is_pending_of(#[trigger] rows[k], alias) ==> exists|j: int|
                    0 <= j < rows.len() && j != k && is_pending_of(#[trigger] rows[j], alias),
        },
{
    lemma_first_live(rows, alias, key);
    lemma_only_pending(rows, alias);
}

/// What a revocation takes and how many it counts, whatever the key.
pub proof fn revocations_take_what_they_name(
    rows: Seq<NodeView>,
    alias: Seq<char>,
    key: Seq<char>,
)
    requires
        ordered(rows),
    ensures
        ({
            let named = after_revoke(rows, alias, Some(key));
            let all = after_revoke(rows, alias, None);
            &&& named.len() == rows.len() && all.len() == rows.len()
            &&& forall|i: int|
                0 <= i < rows.len() ==> if is_live_of(rows[i], alias, key) {
                    revoked_from(rows[i], #[trigger] named[i])
                } else {
                    named[i] == rows[i]
                }
            &&& forall|i: int|
                0 <= i < rows.len() ==> if rows[i].alias == alias && rows[i].status != "revoked"@ {
                    revoked_from(rows[i], #[trigger] all[i])
                } else {
                    all[i] == rows[i]
                }
            &&& revocations(rows, alias, Some(key), rows.len()).len() == live_of_key(
                rows,
                alias,
                key,
            ).len()
            &&& revocations(rows, alias, None, rows.len()).len() == live_of_alias(
                rows,
                alias,
            ).len()
        }),
{
    lemma_revocations(rows, alias, Some(key), rows.len());
    lemma_revocations(rows, alias, None, rows.len());
    assert(rows.take(rows.len() as int) =~= rows);
    let named = |n: NodeView| n.alias == alias && n.public_key == key && n.status != "revoked"@;
    let all = |n: NodeView| n.alias == alias && n.status != "revoked"@;
    lemma_number_revoked(rows, alias, Some(key), named, rows.len());
    lemma_number_revoked(rows, alias, None, all, rows.len());
    assert(live_of_key(rows, alias, key) == rows.filter(named));
    assert(live_of_alias(rows, alias) == rows.filter(all));
}

/// A record needs an alias and a key: a request without one of them is
/// refused and writes nothing, and the refusals say what is wrong.
pub proof fn records_need_both_fields(
    rows: Seq<NodeView>,
    alias: Seq<char>,
    key: Seq<char>,
    now: u64,
)
    ensures
        alias.len() == 0 || key.len() == 0 ==> create_answer(rows, alias, key, now) == Err::<
            NodeView,
            NodeErrorView,
        >(NodeErrorView::FieldsRequired) && create_puts(rows, alias, key, now) == Seq::<
            NodeView,
        >::empty(),
        node_error_text(NodeErrorView::FieldsRequired) == "alias and public_key are required"@,
{
}

}
