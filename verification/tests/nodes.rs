//! The node registry.

use prism::nodes::{Node, NodeError, NodeStore, Posture, Verdict};

fn store() -> NodeStore {
    NodeStore::new(Vec::new())
}

fn row(id: u64, alias: &str, key: &str, status: &str) -> Node {
    Node {
        id,
        alias: alias.to_string(),
        public_key: key.to_string(),
        status: status.to_string(),
        created_at: 1,
        global: 0,
    }
}

fn statuses(s: &NodeStore) -> Vec<(u64, String, String)> {
    s.list().into_iter().map(|n| (n.id, n.public_key, n.status)).collect()
}

#[test]
fn verdict_lifecycle() {
    let mut s = store();
    // Fresh claim → pending + a visible row.
    assert_eq!(s.verdict("home-pc", "KEY-A"), Verdict::Pending);
    assert_eq!(s.list().len(), 1);
    // Retry is idempotent pending (same row, no duplicate).
    assert_eq!(s.verdict("home-pc", "KEY-A"), Verdict::Pending);
    assert_eq!(s.list().len(), 1);
    // Approve by alias (unique pending) → registered.
    let approved = s.approve("home-pc", None).unwrap();
    assert_eq!(approved.public_key, "KEY-A");
    assert_eq!(s.verdict("home-pc", "KEY-A"), Verdict::Registered);
    // A different key under the alias → conflict, never takeover.
    assert_eq!(s.verdict("home-pc", "KEY-B"), Verdict::Conflict);
    assert_eq!(
        s.list().iter().find(|n| n.public_key == "KEY-B").unwrap().status,
        "pending",
        "the conflicting claim is still queued for the operator"
    );
    // Rotation: approve KEY-B → A demotes to revoked.
    s.approve("home-pc", Some("KEY-B")).unwrap();
    assert_eq!(s.verdict("home-pc", "KEY-B"), Verdict::Registered);
    assert_eq!(s.verdict("home-pc", "KEY-A"), Verdict::Conflict);
    // Revocation: B falls to revoked; a revoked key re-claiming is
    // back to pending, never self-service (the revive rewrote B).
    s.revoke("home-pc", None).unwrap();
    assert_eq!(s.verdict("home-pc", "KEY-B"), Verdict::Pending);
    assert_eq!(s.list().iter().filter(|n| n.status == "pending").count(), 1, "only B revived");
    assert_eq!(s.list().iter().filter(|n| n.status == "revoked").count(), 1, "A stays a tombstone");
}

#[test]
fn approve_is_never_a_guess() {
    let mut s = store();
    s.verdict("two-pending", "K1");
    s.verdict("two-pending", "K2");
    // Two pending, keyless approve → refused (the honest-cost
    // comparison is the operator's job).
    assert!(s.approve("two-pending", None).is_err());
    assert!(s.approve("two-pending", Some("K1")).is_ok());
    assert!(s.approve("no-such-alias", None).is_err());
}

#[test]
fn posture_parse_is_closed() {
    assert_eq!(Posture::parse("required").unwrap(), Posture::Required);
    assert_eq!(Posture::parse("open").unwrap(), Posture::Open);
    assert!(Posture::parse("").is_err());
    assert!(Posture::parse("trust-me").is_err());
}

#[test]
fn posture_error_names_what_was_given() {
    assert_eq!(
        Posture::parse("maybe").unwrap_err().to_string(),
        "identity: expected `required` | `open`, got `maybe`"
    );
}

#[test]
fn a_record_is_created_once() {
    let mut s = store();
    let first = s.create_at("a", "K", 77).unwrap();
    assert_eq!(first, row_at(1, "a", "K", "pending", 77));
    assert_eq!(s.create_at("a", "K", 99).unwrap(), first);
    assert_eq!(s.list(), vec![first]);
    assert_eq!(s.create("", "K").unwrap_err(), NodeError::FieldsRequired);
    assert_eq!(s.create("a", "").unwrap_err().to_string(), "alias and public_key are required");
    // the clock stamps what is created without a time
    assert!(s.create("b", "K").unwrap().created_at > 1_600_000_000_000);
}

fn row_at(id: u64, alias: &str, key: &str, status: &str, created_at: u64) -> Node {
    Node { created_at, ..row(id, alias, key, status) }
}

#[test]
fn a_revoked_claim_can_be_created_anew_and_its_approval_counts() {
    let mut s = store();
    s.create_at("a", "K", 1).unwrap();
    assert_eq!(s.revoke("a", Some("K")).unwrap(), 1);
    assert_eq!(s.create_at("a", "K", 2).unwrap().id, 2);
    s.approve("a", Some("K")).unwrap();
    assert_eq!(s.verdict("a", "K"), Verdict::Registered);
    assert_eq!(statuses(&s), vec![
        (1, "K".to_string(), "revoked".to_string()),
        (2, "K".to_string(), "approved".to_string()),
    ]);
}

#[test]
fn a_claim_of_an_unheld_alias_has_one_live_record() {
    let mut s = store();
    s.create_at("a", "other", 1).unwrap();
    for revoke in [false, true] {
        if revoke {
            s.revoke("a", Some("K")).unwrap();
        }
        assert_eq!(s.verdict_at("a", "K", 2), Verdict::Pending);
        let once = s.list();
        assert_eq!(s.verdict_at("a", "K", 3), Verdict::Pending);
        assert_eq!(s.list(), once);
        assert_eq!(once, vec![row_at(1, "a", "other", "pending", 1), row_at(2, "a", "K", "pending", 2)]);
    }
}

#[test]
fn refusals_say_why_and_change_nothing() {
    let mut s = store();
    s.create_at("a", "K1", 1).unwrap();
    s.create_at("a", "K2", 1).unwrap();
    s.take_writes();
    let before = s.list();
    assert_eq!(
        s.approve("a", None).unwrap_err().to_string(),
        "no unique pending key for `a` — approve by public_key"
    );
    assert_eq!(s.approve("a", Some("K9")).unwrap_err().to_string(), "no such record for `a`");
    assert_eq!(s.revoke("b", None).unwrap_err().to_string(), "no live record for `b`");
    assert_eq!(s.revoke("a", Some("K9")).unwrap_err(), NodeError::NoLiveRecord("a".to_string()));
    assert_eq!(s.list(), before);
    assert!(s.take_writes().is_empty());
}

#[test]
fn empty_claims_wait_without_a_record() {
    let mut s = store();
    assert_eq!(s.verdict("", "K"), Verdict::Pending);
    assert_eq!(s.verdict("a", ""), Verdict::Pending);
    assert!(s.list().is_empty());
}

#[test]
fn rotation_keeps_one_approved_key_and_the_history() {
    let mut s = store();
    for key in ["K1", "K2", "K3"] {
        s.create_at("a", key, 5).unwrap();
        s.create_at("b", key, 5).unwrap();
        s.approve("a", Some(key)).unwrap();
        let live: Vec<Node> =
            s.list().into_iter().filter(|n| n.alias == "a" && n.status == "approved").collect();
        assert_eq!(live.len(), 1);
        assert_eq!(live[0].public_key, key);
    }
    assert_eq!(s.list().len(), 6);
    assert!(s.list().iter().all(|n| n.created_at == 5));
    assert_eq!(s.list().iter().map(|n| n.id).collect::<Vec<u64>>(), vec![1, 2, 3, 4, 5, 6]);
    assert_eq!(s.revoke("b", None).unwrap(), 3);
}

#[test]
fn journal_rebuilds_the_table() {
    let mut s = store();
    s.verdict_at("a", "K1", 1);
    s.verdict_at("a", "K2", 2);
    s.approve("a", Some("K1")).unwrap();
    s.approve("a", Some("K2")).unwrap();
    let writes = s.take_writes();
    assert_eq!(writes.len(), 5);
    assert_eq!(writes[3].status, "revoked", "the demotion is written before the approval");
    let again = NodeStore::new(writes);
    assert_eq!(again.list(), s.list());
    assert!(s.take_writes().is_empty());
}

#[test]
fn loading_puts_rows_under_their_ids() {
    let s = NodeStore::new(vec![
        row(7, "a", "K7", "pending"),
        row(2, "a", "K2", "pending"),
        row(7, "a", "K7", "approved"),
    ]);
    assert_eq!(s.list(), vec![row(2, "a", "K2", "pending"), row(7, "a", "K7", "approved")]);
    let mut s = s;
    assert!(s.can_grow());
    assert_eq!(s.create_at("b", "K", 1).unwrap().id, 8);
    assert!(!NodeStore::new(vec![row(u64::MAX, "a", "K", "pending")]).can_grow());
    assert_eq!(s.list()[0].key().id, 2);
}
