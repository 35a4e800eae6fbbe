//! What holds of the node registry as a whole, whatever is asked of it.

use crate::nodes::{
    approve_puts, approve_target, create_answer, create_puts, demoted, demotions, first, fresh,
    lemma_demotions, lemma_first, lemma_first_is, lemma_revocations, lemma_status_words, picks,
    revocations, some_row, verdict_of, verdict_puts, with_status, NodeErrorView, NodeView, Pick,
    Verdict,
};
use crate::table::{
    lemma_put_appends, lemma_put_one, lemma_put_replaces, lemma_watermark, ordered, put_all,
    watermark,
};
use vstd::prelude::*;

verus! {

/// The table after a claim.
pub open spec fn after_verdict(
    rows: Seq<NodeView>,
    alias: Seq<char>,
    key: Seq<char>,
    now: u64,
) -> Seq<NodeView> {
    put_all(rows, verdict_puts(rows, alias, key, now))
}

/// The table after a request for a record.
pub open spec fn after_create(
    rows: Seq<NodeView>,
    alias: Seq<char>,
    key: Seq<char>,
    now: u64,
) -> Seq<NodeView> {
    put_all(rows, create_puts(rows, alias, key, now))
}

/// The table after a request for an approval.
pub open spec fn after_approve(
    rows: Seq<NodeView>,
    alias: Seq<char>,
    key: Option<Seq<char>>,
) -> Seq<NodeView> {
    match approve_target(rows, alias, key) {
        Ok(at) => put_all(rows, approve_puts(rows, alias, at)),
        Err(_) => rows,
    }
}

/// The table after a request for a revocation.
pub open spec fn after_revoke(
    rows: Seq<NodeView>,
    alias: Seq<char>,
    key: Option<Seq<char>>,
) -> Seq<NodeView> {
    put_all(rows, revocations(rows, alias, key, rows.len()))
}

pub open spec fn approved(n: NodeView) -> bool {
    n.status == "approved"@
}

pub open spec fn pending(n: NodeView) -> bool {
    n.status == "pending"@
}

pub open spec fn live(n: NodeView) -> bool {
    n.status != "revoked"@
}

/// Every status is a word of the vocabulary.
pub open spec fn statuses_known(rows: Seq<NodeView>) -> bool {
    forall|i: int|
        0 <= i < rows.len() ==> (#[trigger] rows[i]).status == "pending"@ || rows[i].status
            == "approved"@ || rows[i].status == "revoked"@
}

/// No alias has two approved records.
pub open spec fn one_approved(rows: Seq<NodeView>) -> bool {
    forall|i: int, j: int|
        0 <= i < rows.len() && 0 <= j < rows.len() && approved(#[trigger] rows[i]) && approved(
            #[trigger] rows[j],
        ) && rows[i].alias == rows[j].alias ==> i == j
}

/// No claim of an alias by a key has two live records.
pub open spec fn one_live(rows: Seq<NodeView>) -> bool {
    forall|i: int, j: int|
        0 <= i < rows.len() && 0 <= j < rows.len() && live(#[trigger] rows[i]) && live(
            #[trigger] rows[j],
        ) && rows[i].alias == rows[j].alias && rows[i].public_key == rows[j].public_key ==> i == j
}

/// What every table of the registry satisfies.
pub open spec fn valid(rows: Seq<NodeView>) -> bool {
    ordered(rows) && statuses_known(rows) && one_approved(rows) && one_live(rows)
}

/// The same record, whatever its status.
pub open spec fn same_record(a: NodeView, b: NodeView) -> bool {
    a == with_status(b, a.status)
}

/// Every record is still where it was, with no more than its status changed.
pub open spec fn history_kept(before: Seq<NodeView>, after: Seq<NodeView>) -> bool {
    before.len() <= after.len() && forall|i: int|
        0 <= i < before.len() ==> same_record(#[trigger] before[i], after[i])
}

/// How a request for a record changes the table.
proof fn lemma_create(rows: Seq<NodeView>, alias: Seq<char>, key: Seq<char>, now: u64)
    requires
        ordered(rows),
        watermark(rows) < u64::MAX,
    ensures
        (create_puts(rows, alias, key, now).len() == 0 && after_create(rows, alias, key, now) == rows)
            || (create_puts(rows, alias, key, now).len() == 1 && !some_row(
            rows,
            Pick::OwnLive,
            alias,
            key,
        ) && after_create(rows, alias, key, now) == rows.push(fresh(rows, alias, key, now))),
        ordered(after_create(rows, alias, key, now)),
{
    let row = fresh(rows, alias, key, now);
    lemma_put_appends(rows, row);
    lemma_put_one(rows, row);
}

/// How a claim changes the table.
proof fn lemma_verdict(rows: Seq<NodeView>, alias: Seq<char>, key: Seq<char>, now: u64)
    requires
        ordered(rows),
        watermark(rows) < u64::MAX,
    ensures
        ({
            let after = after_verdict(rows, alias, key, now);
            let at = first(rows, Pick::Own, alias, key);
            &&& ordered(after)
            &&& {
                ||| after == rows && verdict_puts(rows, alias, key, now).len() == 0
                ||| !some_row(rows, Pick::Own, alias, key) && after == rows.push(
                    fresh(rows, alias, key, now),
                )
                ||| {
                    &&& 0 <= at < rows.len()
                    &&& rows[at].alias == alias && rows[at].public_key == key
                    &&& after == rows.update(at, with_status(rows[at], "pending"@))
                    &&& !some_row(rows, Pick::OwnApproved, alias, key)
                    &&& !some_row(rows, Pick::OwnPending, alias, key)
                    &&& !some_row(rows, Pick::OtherApproved, alias, key)
                }
            }
        }),
{
    let at = first(rows, Pick::Own, alias, key);
    lemma_first(rows, Pick::Own, alias, key);
    lemma_create(rows, alias, key, now);
    if some_row(rows, Pick::Own, alias, key) {
        let row = with_status(rows[at], "pending"@);
        assert(picks(rows[at], Pick::Own, alias, key));
        lemma_put_replaces(rows, row, at);
        lemma_put_one(rows, row);
    } else {
        assert(!some_row(rows, Pick::OwnApproved, alias, key)) by {
            if some_row(rows, Pick::OwnApproved, alias, key) {
                let i = choose|i: int|
                    0 <= i < rows.len() && #[trigger] picks(rows[i], Pick::OwnApproved, alias, key);
                assert(picks(rows[i], Pick::Own, alias, key));
            }
        }
    }
}

/// How an approval changes the table.
pub proof fn lemma_approve(rows: Seq<NodeView>, alias: Seq<char>, key: Option<Seq<char>>)
    requires
        ordered(rows),
    ensures
        ({
            let after = after_approve(rows, alias, key);
            &&& ordered(after)
            &&& after.len() == rows.len()
            &&& match approve_target(rows, alias, key) {
                Ok(at) => {
                    &&& 0 <= at < rows.len()
                    &&& rows[at].alias == alias
                    &&& live(rows[at])
                    &&& key matches Some(k) ==> rows[at].public_key == k
                    &&& forall|j: int|
                        0 <= j < rows.len() ==> #[trigger] after[j] == if j == at {
                            with_status(rows[j], "approved"@)
                        } else if rows[j].alias == alias && approved(rows[j]) {
                            with_status(rows[j], "revoked"@)
                        } else {
                            rows[j]
                        }
                },
                Err(_) => after == rows,
            }
        }),
{
    lemma_status_words();
    match approve_target(rows, alias, key) {
        Ok(at) => {
            match key {
                Some(k) => {
                    lemma_first(rows, Pick::OwnLive, alias, k);
                    assert(picks(rows[at], Pick::OwnLive, alias, k));
                },
                None => {
                    lemma_first(rows, Pick::Pending, alias, Seq::empty());
                    assert(picks(rows[at], Pick::Pending, alias, Seq::empty()));
                },
            }
            let demoting = demotions(rows, alias, rows[at].id, rows.len());
            lemma_demotions(rows, alias, rows[at].id, rows.len());
            let middle = put_all(rows, demoting);
            let row = with_status(rows[at], "approved"@);
            assert(middle[at] == rows[at]);
            lemma_put_replaces(middle, row, at);
            assert(approve_puts(rows, alias, at).drop_last() =~= demoting);
            let after = after_approve(rows, alias, key);
            assert forall|j: int| 0 <= j < rows.len() implies #[trigger] after[j] == if j == at {
                with_status(rows[j], "approved"@)
            } else if rows[j].alias == alias && approved(rows[j]) {
                with_status(rows[j], "revoked"@)
            } else {
                rows[j]
            } by {
                assert(middle[j] == if demoted(rows[j], alias, rows[at].id) {
                    with_status(rows[j], "revoked"@)
                } else {
                    rows[j]
                });
                if j < at {
                    assert(rows[j].id < rows[at].id);
                } else if at < j {
                    assert(rows[at].id < rows[j].id);
                }
            }
        },
        Err(_) => {},
    }
}

/// Every request leaves a valid table valid: ids rise, statuses stay in the
/// vocabulary, no alias ever has two approved keys, and no claim ever has two
/// live records.
pub proof fn registry_stays_valid(
    rows: Seq<NodeView>,
    alias: Seq<char>,
    key: Seq<char>,
    now: u64,
    chosen: Option<Seq<char>>,
)
    requires
        valid(rows),
    ensures
        watermark(rows) < u64::MAX ==> valid(after_verdict(rows, alias, key, now)),
        watermark(rows) < u64::MAX ==> valid(after_create(rows, alias, key, now)),
        valid(after_approve(rows, alias, chosen)),
        valid(after_revoke(rows, alias, chosen)),
{
    lemma_status_words();
    lemma_approve(rows, alias, chosen);
    lemma_revocations(rows, alias, chosen, rows.len());
    if watermark(rows) < u64::MAX {
        lemma_claims_stay_valid(rows, alias, key, now);
    }
}

/// A claim and a request for a record leave a valid table valid.
proof fn lemma_claims_stay_valid(rows: Seq<NodeView>, alias: Seq<char>, key: Seq<char>, now: u64)
    requires
        valid(rows),
        watermark(rows) < u64::MAX,
    ensures
        valid(after_verdict(rows, alias, key, now)),
        valid(after_create(rows, alias, key, now)),
{
    lemma_status_words();
    lemma_create(rows, alias, key, now);
    lemma_verdict(rows, alias, key, now);
    let row = fresh(rows, alias, key, now);
    if !some_row(rows, Pick::OwnLive, alias, key) {
        lemma_queued_is_valid(rows, row);
    }
    if after_verdict(rows, alias, key, now) != rows {
        if some_row(rows, Pick::OwnLive, alias, key) {
            let i = choose|i: int|
                0 <= i < rows.len() && #[trigger] picks(rows[i], Pick::OwnLive, alias, key);
            assert(picks(rows[i], Pick::Own, alias, key));
            assert(picks(rows[i], Pick::OwnApproved, alias, key) || picks(
                rows[i],
                Pick::OwnPending,
                alias,
                key,
            ));
        }
        let after = after_verdict(rows, alias, key, now);
        if after != rows.push(row) {
            assert forall|i: int|
                0 <= i < rows.len() && #[trigger] rows[i].alias == alias && rows[i].public_key
                    == key implies !live(rows[i]) by {
                assert(!picks(rows[i], Pick::OwnLive, alias, key));
            }
        }
    }
}

/// A pending record of a claim without a live one keeps the table valid.
proof fn lemma_queued_is_valid(rows: Seq<NodeView>, row: NodeView)
    requires
        valid(rows),
        watermark(rows) < row.id,
        pending(row),
        !some_row(rows, Pick::OwnLive, row.alias, row.public_key),
    ensures
        valid(rows.push(row)),
{
    lemma_status_words();
    lemma_put_appends(rows, row);
    let after = rows.push(row);
    assert forall|i: int, j: int|
        0 <= i < after.len() && 0 <= j < after.len() && live(#[trigger] after[i]) && live(
            #[trigger] after[j],
        ) && after[i].alias == after[j].alias && after[i].public_key
            == after[j].public_key implies i == j by {
        if i < rows.len() {
            assert(picks(rows[i], Pick::OwnLive, row.alias, row.public_key) || i == j || j
                < rows.len());
        }
        if j < rows.len() {
            assert(picks(rows[j], Pick::OwnLive, row.alias, row.public_key) || i == j || i
                < rows.len());
        }
    }
}

/// Records are never deleted nor rewritten: whatever is asked, each keeps its
/// place, its id, its alias, its key and its time of creation.
pub proof fn history_is_kept(
    rows: Seq<NodeView>,
    alias: Seq<char>,
    key: Seq<char>,
    now: u64,
    chosen: Option<Seq<char>>,
)
    requires
        ordered(rows),
    ensures
        watermark(rows) < u64::MAX ==> history_kept(rows, after_verdict(rows, alias, key, now)),
        watermark(rows) < u64::MAX ==> history_kept(rows, after_create(rows, alias, key, now)),
        history_kept(rows, after_approve(rows, alias, chosen)),
        history_kept(rows, after_revoke(rows, alias, chosen)),
{
    if watermark(rows) < u64::MAX {
        lemma_create(rows, alias, key, now);
        lemma_verdict(rows, alias, key, now);
    }
    lemma_approve(rows, alias, chosen);
    lemma_revocations(rows, alias, chosen, rows.len());
}

/// Nobody approves themself: a claim or a request for a record leaves the
/// approved records exactly as they were. In particular an approved key is
/// never replaced by a claim.
pub proof fn claims_approve_nothing(
    rows: Seq<NodeView>,
    alias: Seq<char>,
    key: Seq<char>,
    now: u64,
    i: int,
)
    requires
        ordered(rows),
        watermark(rows) < u64::MAX,
    ensures
        ({
            let after = after_verdict(rows, alias, key, now);
            0 <= i < after.len() ==> (approved(after[i]) <==> i < rows.len() && approved(rows[i]))
        }),
        ({
            let after = after_create(rows, alias, key, now);
            0 <= i < after.len() ==> (approved(after[i]) <==> i < rows.len() && approved(rows[i]))
        }),
{
    lemma_status_words();
    lemma_create(rows, alias, key, now);
    lemma_verdict(rows, alias, key, now);
    if 0 <= i < rows.len() {
        assert(picks(rows[i], Pick::OwnApproved, alias, key) || !approved(rows[i]) || rows[i].alias
            != alias || rows[i].public_key != key);
    }
}

/// A claim that is repeated gets the same verdict and writes nothing more.
pub proof fn claim_is_idempotent(
    rows: Seq<NodeView>,
    alias: Seq<char>,
    key: Seq<char>,
    now: u64,
    later: u64,
)
    requires
        ordered(rows),
        watermark(rows) < u64::MAX,
    ensures
        ({
            let after = after_verdict(rows, alias, key, now);
            &&& verdict_of(after, alias, key) == verdict_of(rows, alias, key)
            &&& verdict_puts(after, alias, key, later).len() == 0
        }),
{
    lemma_status_words();
    lemma_verdict(rows, alias, key, now);
    let after = after_verdict(rows, alias, key, now);
    lemma_first(rows, Pick::Own, alias, key);
    if after != rows {
        let own = if after.len() == rows.len() {
            first(rows, Pick::Own, alias, key)
        } else {
            rows.len() as int
        };
        assert(picks(after[own], Pick::Own, alias, key));
        assert(picks(after[own], Pick::OwnPending, alias, key));
        assert forall|i: int| 0 <= i < after.len() implies (approved(#[trigger] after[i]) <==> i
            < rows.len() && approved(rows[i])) by {
            claims_approve_nothing(rows, alias, key, now, i);
        }
        lemma_same_approved(rows, after, alias, key);
    } else {
        let at = first(rows, Pick::Own, alias, key);
        assert(rows.push(fresh(rows, alias, key, now)).len() != rows.len());
        assert(0 <= at < rows.len() ==> rows.update(
            at,
            with_status(rows[at], "pending"@),
        )[at].status == "pending"@);
        assert(picks(rows[at], Pick::OwnPending, alias, key) || verdict_puts(
            rows,
            alias,
            key,
            now,
        ).len() == 0);
    }
}

/// A claim is never lost on the operator: afterwards the alias has a record
/// of the key, and one that waits is pending.
pub proof fn claims_are_visible(rows: Seq<NodeView>, alias: Seq<char>, key: Seq<char>, now: u64)
    requires
        ordered(rows),
        watermark(rows) < u64::MAX,
        alias.len() > 0,
        key.len() > 0,
    ensures
        ({
            let after = after_verdict(rows, alias, key, now);
            &&& some_row(after, Pick::Own, alias, key)
            &&& verdict_of(rows, alias, key) == Verdict::Pending ==> some_row(
                after,
                Pick::OwnPending,
                alias,
                key,
            )
        }),
{
    lemma_status_words();
    let after = after_verdict(rows, alias, key, now);
    let row = fresh(rows, alias, key, now);
    lemma_first(rows, Pick::Own, alias, key);
    lemma_put_appends(rows, row);
    lemma_put_one(rows, row);
    if some_row(rows, Pick::OwnApproved, alias, key) {
        let i = choose|i: int|
            0 <= i < rows.len() && #[trigger] picks(rows[i], Pick::OwnApproved, alias, key);
        assert(picks(after[i], Pick::Own, alias, key));
    } else if !some_row(rows, Pick::Own, alias, key) {
        assert(!some_row(rows, Pick::OwnLive, alias, key)) by {
            if some_row(rows, Pick::OwnLive, alias, key) {
                let i = choose|i: int|
                    0 <= i < rows.len() && #[trigger] picks(rows[i], Pick::OwnLive, alias, key);
                assert(picks(rows[i], Pick::Own, alias, key));
            }
        }
        assert(after[rows.len() as int] == row);
        assert(picks(after[rows.len() as int], Pick::Own, alias, key));
        assert(picks(after[rows.len() as int], Pick::OwnPending, alias, key));
    } else {
        let at = first(rows, Pick::Own, alias, key);
        let revived = with_status(rows[at], "pending"@);
        lemma_put_replaces(rows, revived, at);
        lemma_put_one(rows, revived);
        assert(picks(rows[at], Pick::Own, alias, key));
        assert(picks(after[at], Pick::Own, alias, key));
        if verdict_of(rows, alias, key) == Verdict::Pending && !some_row(
            rows,
            Pick::OwnPending,
            alias,
            key,
        ) {
            assert(picks(after[at], Pick::OwnPending, alias, key));
        }
    }
}

/// The record is of an alias and a key, and not revoked.
pub open spec fn live_of(n: NodeView, alias: Seq<char>, key: Seq<char>) -> bool {
    n.alias == alias && n.public_key == key && live(n)
}

/// The record of a claim that waits: the pending one there was, else the
/// first of the key's records, which were all revoked, else a new one.
pub open spec fn waiting_at(rows: Seq<NodeView>, alias: Seq<char>, key: Seq<char>) -> int {
    if some_row(rows, Pick::OwnPending, alias, key) {
        first(rows, Pick::OwnPending, alias, key)
    } else if some_row(rows, Pick::Own, alias, key) {
        first(rows, Pick::Own, alias, key)
    } else {
        rows.len() as int
    }
}

/// A claim of an alias that nobody holds waits, and so does its repetition,
/// which changes nothing. Afterwards the claim has exactly one live record,
/// a pending one: the one there was, or else its revoked record set back
/// under the same id, or else a new one. Every other record is as it was,
/// and none of the alias is approved.
pub proof fn unheld_alias_queues_the_claim(
    rows: Seq<NodeView>,
    alias: Seq<char>,
    key: Seq<char>,
    now: u64,
    later: u64,
)
    requires
        valid(rows),
        watermark(rows) < u64::MAX,
        alias.len() > 0,
        key.len() > 0,
        forall|i: int| 0 <= i < rows.len() && (#[trigger] rows[i]).alias == alias ==> !approved(rows[i]),
    ensures
        ({
            let after = after_verdict(rows, alias, key, now);
            let at = waiting_at(rows, alias, key);
            &&& verdict_of(rows, alias, key) == Verdict::Pending
            &&& verdict_of(after, alias, key) == Verdict::Pending
            &&& after_verdict(after, alias, key, later) == after
            &&& 0 <= at < after.len()
            &&& after[at] == if at < rows.len() {
                with_status(rows[at], "pending"@)
            } else {
                fresh(rows, alias, key, now)
            }
            &&& forall|i: int|
                0 <= i < after.len() ==> (live_of(#[trigger] after[i], alias, key) <==> i == at)
            &&& forall|i: int| 0 <= i < rows.len() && i != at ==> #[trigger] after[i] == rows[i]
            &&& forall|i: int|
                0 <= i < after.len() && (#[trigger] after[i]).alias == alias ==> !approved(after[i])
        }),
{
    lemma_status_words();
    let after = after_verdict(rows, alias, key, now);
    let at = waiting_at(rows, alias, key);
    assert forall|i: int| 0 <= i < rows.len() implies !#[trigger] picks(
        rows[i],
        Pick::OwnApproved,
        alias,
        key,
    ) by {}
    assert forall|i: int| 0 <= i < rows.len() implies !#[trigger] picks(
        rows[i],
        Pick::OtherApproved,
        alias,
        key,
    ) by {}
    claim_is_idempotent(rows, alias, key, now, later);
    registry_stays_valid(rows, alias, key, now, None);
    assert(verdict_puts(after, alias, key, later) =~= Seq::<NodeView>::empty());
    lemma_verdict(rows, alias, key, now);
    lemma_first(rows, Pick::Own, alias, key);
    lemma_first(rows, Pick::OwnPending, alias, key);
    let row = fresh(rows, alias, key, now);
    if some_row(rows, Pick::OwnPending, alias, key) {
        assert(picks(rows[at], Pick::OwnPending, alias, key));
        assert(picks(rows[at], Pick::Own, alias, key));
        assert(after == rows);
        assert(with_status(rows[at], "pending"@) == rows[at]);
    } else if some_row(rows, Pick::Own, alias, key) {
        let revived = with_status(rows[at], "pending"@);
        lemma_put_replaces(rows, revived, at);
        lemma_put_one(rows, revived);
        assert(after == rows.update(at, revived));
    } else {
        assert(!some_row(rows, Pick::OwnLive, alias, key)) by {
            if some_row(rows, Pick::OwnLive, alias, key) {
                let i = choose|i: int|
                    0 <= i < rows.len() && #[trigger] picks(rows[i], Pick::OwnLive, alias, key);
                assert(picks(rows[i], Pick::Own, alias, key));
            }
        }
        lemma_put_appends(rows, row);
        lemma_put_one(rows, row);
        assert(after == rows.push(row));
    }
    assert(live_of(after[at], alias, key));
    assert forall|i: int| 0 <= i < after.len() implies (live_of(#[trigger] after[i], alias, key)
        <==> i == at) by {
        if live_of(after[i], alias, key) {
            assert(live(after[i]) && live(after[at]));
        }
    }
}

/// Verdicts depend on the approved records alone.
proof fn lemma_same_approved(
    rows: Seq<NodeView>,
    after: Seq<NodeView>,
    alias: Seq<char>,
    key: Seq<char>,
)
    requires
        history_kept(rows, after),
        forall|i: int|
            0 <= i < after.len() ==> (approved(#[trigger] after[i]) <==> i < rows.len()
                && approved(rows[i])),
    ensures
        some_row(after, Pick::OwnApproved, alias, key) == some_row(
            rows,
            Pick::OwnApproved,
            alias,
            key,
        ),
        some_row(after, Pick::OtherApproved, alias, key) == some_row(
            rows,
            Pick::OtherApproved,
            alias,
            key,
        ),
{
    assert forall|i: int| 0 <= i < after.len() implies (#[trigger] picks(
        after[i],
        Pick::OwnApproved,
        alias,
        key,
    ) <==> i < rows.len() && picks(rows[i], Pick::OwnApproved, alias, key)) && (picks(
        after[i],
        Pick::OtherApproved,
        alias,
        key,
    ) <==> i < rows.len() && picks(rows[i], Pick::OtherApproved, alias, key)) by {
        if i < rows.len() {
            assert(same_record(rows[i], after[i]));
        }
        assert(approved(after[i]) <==> i < rows.len() && approved(rows[i]));
    }
    if some_row(rows, Pick::OwnApproved, alias, key) {
        let i = choose|i: int|
            0 <= i < rows.len() && #[trigger] picks(rows[i], Pick::OwnApproved, alias, key);
        assert(picks(after[i], Pick::OwnApproved, alias, key));
    }
    if some_row(rows, Pick::OtherApproved, alias, key) {
        let i = choose|i: int|
            0 <= i < rows.len() && #[trigger] picks(rows[i], Pick::OtherApproved, alias, key);
        assert(!picks(after[i], Pick::OwnApproved, alias, key));
        assert(picks(after[i], Pick::OtherApproved, alias, key));
    }
    if some_row(after, Pick::OtherApproved, alias, key) {
        let i = choose|i: int|
            0 <= i < after.len() && #[trigger] picks(after[i], Pick::OtherApproved, alias, key);
        assert(!picks(after[i], Pick::OwnApproved, alias, key));
        assert(picks(rows[i], Pick::OtherApproved, alias, key));
    }
}

/// An approval that succeeds registers its key, makes every other key of the
/// alias a conflict, and leaves the verdicts of other aliases alone.
pub proof fn approval_registers_its_key(
    rows: Seq<NodeView>,
    alias: Seq<char>,
    chosen: Option<Seq<char>>,
    at: int,
    other_alias: Seq<char>,
    other_key: Seq<char>,
)
    requires
        ordered(rows),
        approve_target(rows, alias, chosen) == Ok::<int, NodeErrorView>(at),
    ensures
        ({
            let after = after_approve(rows, alias, chosen);
            let key = rows[at].public_key;
            &&& verdict_of(after, alias, key) == Verdict::Registered
            &&& other_key != key ==> verdict_of(after, alias, other_key) == Verdict::Conflict
            &&& other_alias != alias ==> verdict_of(after, other_alias, other_key) == verdict_of(
                rows,
                other_alias,
                other_key,
            )
        }),
{
    lemma_status_words();
    lemma_approve(rows, alias, chosen);
    let after = after_approve(rows, alias, chosen);
    let key = rows[at].public_key;
    assert(picks(after[at], Pick::OwnApproved, alias, key));
    if other_key != key {
        assert(picks(after[at], Pick::OtherApproved, alias, other_key));
        assert forall|i: int| 0 <= i < after.len() implies !#[trigger] picks(
            after[i],
            Pick::OwnApproved,
            alias,
            other_key,
        ) by {}
    }
    if other_alias != alias {
        lemma_other_alias(rows, after, alias, other_alias, other_key);
    }
}

/// Requests about one alias do not touch the verdicts of another.
proof fn lemma_other_alias(
    rows: Seq<NodeView>,
    after: Seq<NodeView>,
    alias: Seq<char>,
    other_alias: Seq<char>,
    key: Seq<char>,
)
    requires
        after.len() == rows.len(),
        forall|i: int|
            0 <= i < rows.len() ==> (#[trigger] after[i]).alias == rows[i].alias && (rows[i].alias
                != alias ==> after[i] == rows[i]),
        other_alias != alias,
    ensures
        verdict_of(after, other_alias, key) == verdict_of(rows, other_alias, key),
{
    assert forall|pick: Pick| #[trigger] some_row(after, pick, other_alias, key) == some_row(
        rows,
        pick,
        other_alias,
        key,
    ) by {
        if some_row(rows, pick, other_alias, key) {
            let i = choose|i: int|
                0 <= i < rows.len() && #[trigger] picks(rows[i], pick, other_alias, key);
            assert(picks(after[i], pick, other_alias, key));
        }
        if some_row(after, pick, other_alias, key) {
            let i = choose|i: int|
                0 <= i < after.len() && #[trigger] picks(after[i], pick, other_alias, key);
            assert(picks(rows[i], pick, other_alias, key));
        }
    }
}

/// An approval without a key succeeds exactly when the alias has one pending
/// record and no other, and it approves that record. It never guesses.
pub proof fn approval_is_never_a_guess(rows: Seq<NodeView>, alias: Seq<char>)
    ensures
        (approve_target(rows, alias, None) is Ok) <==> {
            &&& exists|i: int| 0 <= i < rows.len() && #[trigger] queued(rows[i], alias)
            &&& forall|i: int, j: int|
                0 <= i < rows.len() && 0 <= j < rows.len() && #[trigger] queued(rows[i], alias)
                    && #[trigger] queued(rows[j], alias) ==> i == j
        },
        approve_target(rows, alias, None) matches Ok(at) ==> 0 <= at < rows.len() && queued(
            rows[at],
            alias,
        ),
{
    let none = Seq::<char>::empty();
    lemma_first(rows, Pick::Pending, alias, none);
    let at = first(rows, Pick::Pending, alias, none);
    let rest = rows.skip(at + 1);
    assert forall|i: int| 0 <= i < rows.len() implies #[trigger] queued(rows[i], alias) == picks(
        rows[i],
        Pick::Pending,
        alias,
        none,
    ) by {}
    if some_row(rows, Pick::Pending, alias, none) {
        assert(queued(rows[at], alias));
        if some_row(rest, Pick::Pending, alias, none) {
            let i = choose|i: int|
                0 <= i < rest.len() && #[trigger] picks(rest[i], Pick::Pending, alias, none);
            assert(rest[i] == rows[at + 1 + i]);
            assert(queued(rows[at + 1 + i], alias));
        } else {
            assert forall|i: int| 0 <= i < rows.len() && #[trigger] queued(rows[i], alias) implies i
                == at by {
                assert(picks(rows[i], Pick::Pending, alias, none));
                if i > at {
                    assert(rest[i - at - 1] == rows[i]);
                    assert(picks(rest[i - at - 1], Pick::Pending, alias, none));
                }
            }
        }
    } else {
        assert forall|i: int| 0 <= i < rows.len() implies !#[trigger] queued(rows[i], alias) by {
            assert(!picks(rows[i], Pick::Pending, alias, none));
        }
    }
}

/// The record waits for a decision under an alias.
pub open spec fn queued(n: NodeView, alias: Seq<char>) -> bool {
    n.alias == alias && pending(n)
}

/// The revocation of a whole alias leaves it no live record, so that every
/// key that claims it waits for a decision again. The revocation of one key
/// leaves that key no live record. Other aliases keep their verdicts.
pub proof fn revocation_frees_the_alias(
    rows: Seq<NodeView>,
    alias: Seq<char>,
    key: Seq<char>,
    other_alias: Seq<char>,
)
    requires
        ordered(rows),
    ensures
        ({
            let after = after_revoke(rows, alias, None);
            &&& !some_row(after, Pick::OwnLive, alias, key)
            &&& verdict_of(after, alias, key) == Verdict::Pending
            &&& other_alias != alias ==> verdict_of(after, other_alias, key) == verdict_of(
                rows,
                other_alias,
                key,
            )
        }),
        ({
            let after = after_revoke(rows, alias, Some(key));
            &&& !some_row(after, Pick::OwnLive, alias, key)
            &&& verdict_of(after, alias, key) != Verdict::Registered
            &&& other_alias != alias ==> verdict_of(after, other_alias, key) == verdict_of(
                rows,
                other_alias,
                key,
            )
        }),
{
    lemma_status_words();
    lemma_revocations(rows, alias, None, rows.len());
    lemma_revocations(rows, alias, Some(key), rows.len());
    let all = after_revoke(rows, alias, None);
    let one = after_revoke(rows, alias, Some(key));
    assert forall|i: int| 0 <= i < rows.len() implies !#[trigger] picks(
        all[i],
        Pick::OwnLive,
        alias,
        key,
    ) && !picks(all[i], Pick::OwnApproved, alias, key) && !picks(
        all[i],
        Pick::OtherApproved,
        alias,
        key,
    ) by {}
    assert forall|i: int| 0 <= i < rows.len() implies !#[trigger] picks(
        all[i],
        Pick::OwnApproved,
        alias,
        key,
    ) by {}
    assert forall|i: int| 0 <= i < rows.len() implies !#[trigger] picks(
        all[i],
        Pick::OtherApproved,
        alias,
        key,
    ) by {}
    assert forall|i: int| 0 <= i < rows.len() implies !#[trigger] picks(
        one[i],
        Pick::OwnLive,
        alias,
        key,
    ) by {}
    assert forall|i: int| 0 <= i < rows.len() implies !#[trigger] picks(
        one[i],
        Pick::OwnApproved,
        alias,
        key,
    ) by {}
    if other_alias != alias {
        lemma_other_alias(rows, all, alias, other_alias, key);
        lemma_other_alias(rows, one, alias, other_alias, key);
    }
}

/// A request for a record is answered with the same record when it is
/// repeated, and the repetition writes nothing.
pub proof fn creation_is_idempotent(
    rows: Seq<NodeView>,
    alias: Seq<char>,
    key: Seq<char>,
    now: u64,
    later: u64,
)
    requires
        ordered(rows),
        watermark(rows) < u64::MAX,
    ensures
        ({
            let after = after_create(rows, alias, key, now);
            &&& create_answer(after, alias, key, later) == create_answer(rows, alias, key, now)
            &&& create_puts(after, alias, key, later).len() == 0
        }),
{
    lemma_status_words();
    lemma_create(rows, alias, key, now);
    let after = after_create(rows, alias, key, now);
    if after.len() > rows.len() {
        lemma_first(rows, Pick::OwnLive, alias, key);
        assert forall|j: int| 0 <= j < rows.len() implies !#[trigger] picks(
            after[j],
            Pick::OwnLive,
            alias,
            key,
        ) by {
            assert(!picks(rows[j], Pick::OwnLive, alias, key));
        }
        lemma_first_is(after, Pick::OwnLive, alias, key, rows.len() as int);
    } else if alias.len() > 0 && key.len() > 0 {
        assert(some_row(rows, Pick::OwnLive, alias, key));
    }
}

/// A new record gets an id above that of every record there ever was.
pub proof fn new_record_gets_a_new_id(
    rows: Seq<NodeView>,
    alias: Seq<char>,
    key: Seq<char>,
    now: u64,
    i: int,
)
    requires
        ordered(rows),
        watermark(rows) < u64::MAX,
        0 <= i < rows.len(),
    ensures
        rows[i].id < fresh(rows, alias, key, now).id,
{
    lemma_watermark(rows, i);
}

/// A record of the alias and the key has the status.
pub open spec fn has_status(
    rows: Seq<NodeView>,
    alias: Seq<char>,
    key: Seq<char>,
    status: Seq<char>,
) -> bool {
    exists|i: int|
        0 <= i < rows.len() && (#[trigger] rows[i]).alias == alias && rows[i].public_key == key
            && rows[i].status == status
}

/// A record of the alias and another key is approved.
pub open spec fn held_by_another(rows: Seq<NodeView>, alias: Seq<char>, key: Seq<char>) -> bool {
    exists|i: int|
        0 <= i < rows.len() && (#[trigger] rows[i]).alias == alias && rows[i].public_key != key
            && rows[i].status == "approved"@
}

/// A record of the alias and the key is there, whatever its status.
pub open spec fn has_record(rows: Seq<NodeView>, alias: Seq<char>, key: Seq<char>) -> bool {
    exists|i: int|
        0 <= i < rows.len() && (#[trigger] rows[i]).alias == alias && rows[i].public_key == key
}

proof fn lemma_picks(rows: Seq<NodeView>, alias: Seq<char>, key: Seq<char>)
    ensures
        some_row(rows, Pick::OwnApproved, alias, key) <==> has_status(
            rows,
            alias,
            key,
            "approved"@,
        ),
        some_row(rows, Pick::OwnPending, alias, key) <==> has_status(rows, alias, key, "pending"@),
        some_row(rows, Pick::OtherApproved, alias, key) <==> held_by_another(rows, alias, key),
        some_row(rows, Pick::Own, alias, key) <==> has_record(rows, alias, key),
{
    if has_status(rows, alias, key, "approved"@) {
        let i = choose|i: int|
            0 <= i < rows.len() && (#[trigger] rows[i]).alias == alias && rows[i].public_key == key
                && rows[i].status == "approved"@;
        assert(picks(rows[i], Pick::OwnApproved, alias, key));
    }
    if has_status(rows, alias, key, "pending"@) {
        let i = choose|i: int|
            0 <= i < rows.len() && (#[trigger] rows[i]).alias == alias && rows[i].public_key == key
                && rows[i].status == "pending"@;
        assert(picks(rows[i], Pick::OwnPending, alias, key));
    }
    if held_by_another(rows, alias, key) {
        let i = choose|i: int|
            0 <= i < rows.len() && (#[trigger] rows[i]).alias == alias && rows[i].public_key != key
                && rows[i].status == "approved"@;
        assert(picks(rows[i], Pick::OtherApproved, alias, key));
    }
    if has_record(rows, alias, key) {
        let i = choose|i: int|
            0 <= i < rows.len() && (#[trigger] rows[i]).alias == alias && rows[i].public_key == key;
        assert(picks(rows[i], Pick::Own, alias, key));
    }
}

/// A claim is registered exactly where its own record is approved, a conflict
/// exactly where it is not and another key's is, and pending otherwise. It
/// changes the table in two cases alone. A claim without any record, of an
/// alias and a key that are not empty, is queued behind the others. A claim
/// with nothing but revoked records, of an alias that no key holds, has its
/// first record back in the queue.
pub proof fn claims_are_judged_by_the_records(
    rows: Seq<NodeView>,
    alias: Seq<char>,
    key: Seq<char>,
    now: u64,
)
    requires
        ordered(rows),
        statuses_known(rows),
        watermark(rows) < u64::MAX,
    ensures
        ({
            let mine = has_status(rows, alias, key, "approved"@);
            let waiting = has_status(rows, alias, key, "pending"@);
            let theirs = held_by_another(rows, alias, key);
            let known = has_record(rows, alias, key);
            let after = after_verdict(rows, alias, key, now);
            &&& mine ==> verdict_of(rows, alias, key) == Verdict::Registered
            &&& !mine && theirs ==> verdict_of(rows, alias, key) == Verdict::Conflict
            &&& !mine && !theirs ==> verdict_of(rows, alias, key) == Verdict::Pending
            &&& !known && alias.len() > 0 && key.len() > 0 ==> {
                let new = after.last();
                &&& after.len() == rows.len() + 1
                &&& after.drop_last() == rows
                &&& new.alias == alias
                &&& new.public_key == key
                &&& new.status == "pending"@
                &&& new.created_at == now
                &&& new.global == 0
                &&& forall|j: int| 0 <= j < rows.len() ==> (#[trigger] rows[j]).id < new.id
            }
            &&& !known && (alias.len() == 0 || key.len() == 0) ==> after == rows
            &&& known && (mine || waiting || theirs) ==> after == rows
            &&& known && !mine && !waiting && !theirs ==> {
                &&& after.len() == rows.len()
                &&& exists|i: int|
                    {
                        &&& 0 <= i < rows.len()
                        &&& rows[i].alias == alias && rows[i].public_key == key
                        &&& rows[i].status == "revoked"@
                        &&& #[trigger] after[i] == (NodeView { status: "pending"@, ..rows[i] })
                        &&& forall|j: int|
                            0 <= j < i ==> !((#[trigger] rows[j]).alias == alias
                                && rows[j].public_key == key)
                        &&& forall|j: int|
                            0 <= j < rows.len() && j != i ==> #[trigger] after[j] == rows[j]
                    }
            }
        }),
{
    lemma_status_words();
    lemma_picks(rows, alias, key);
    lemma_verdict(rows, alias, key, now);
    lemma_first(rows, Pick::Own, alias, key);
    let at = first(rows, Pick::Own, alias, key);
    let after = after_verdict(rows, alias, key, now);
    if !has_record(rows, alias, key) {
        assert(!some_row(rows, Pick::OwnLive, alias, key)) by {
            if some_row(rows, Pick::OwnLive, alias, key) {
                let i = choose|i: int|
                    0 <= i < rows.len() && #[trigger] picks(rows[i], Pick::OwnLive, alias, key);
                assert(picks(rows[i], Pick::Own, alias, key));
            }
        }
        assert(!has_status(rows, alias, key, "approved"@));
        let new = fresh(rows, alias, key, now);
        if alias.len() > 0 && key.len() > 0 {
            lemma_put_appends(rows, new);
            lemma_put_one(rows, new);
            assert(after.drop_last() =~= rows);
            assert forall|j: int| 0 <= j < rows.len() implies (#[trigger] rows[j]).id < new.id by {
                lemma_watermark(rows, j);
            }
        }
    } else if !has_status(rows, alias, key, "approved"@) && !has_status(
        rows,
        alias,
        key,
        "pending"@,
    ) && !held_by_another(rows, alias, key) {
        assert(picks(rows[at], Pick::Own, alias, key));
        assert(rows[at].status == "revoked"@);
        let row = with_status(rows[at], "pending"@);
        lemma_put_replaces(rows, row, at);
        lemma_put_one(rows, row);
        assert(after == rows.update(at, row));
        assert(after[at] == row);
        assert forall|j: int| 0 <= j < at implies !((#[trigger] rows[j]).alias == alias
            && rows[j].public_key == key) by {
            assert(!picks(rows[j], Pick::Own, alias, key));
        }
    }
}

}
