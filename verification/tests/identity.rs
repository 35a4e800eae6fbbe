//! Accounts, devices and their binding.

use prism::identity::{Account, AccountError, Device, Registry};

fn registry() -> Registry {
    Registry::open(Vec::new(), Vec::new(), Vec::new())
}

fn account(id: u64, username: &str, hash: &str) -> Account {
    Account {
        id,
        username: username.to_string(),
        nickname: String::new(),
        password_hash: hash.to_string(),
        global: 0,
    }
}

#[test]
fn registry_round_trip() {
    let mut r = registry();

    let alice = r.signup("alice", "Ali", "pw-a", 0).unwrap();
    let bob = r.signup("bob", "Bo", "pw-b", 0).unwrap();
    assert_eq!((alice, bob), (1, 2), "watermark ids, never reused");
    assert!(r.signup("alice", "", "other", 0).is_err(), "username unique");

    // enumeration-free: unknown name and wrong password share one error
    let e1 = r.login("alice", "nope", 0).unwrap_err().to_string();
    let e2 = r.login("ghost", "nope", 0).unwrap_err().to_string();
    assert_eq!(e1, e2);

    // device binding: unknown device -> None; after login the row
    // carries the user (the reconnect restore source).
    assert_eq!(r.device_user(9), None, "unknown device");
    let d = r.new_device().unwrap();
    let uid = r.login("alice", "pw-a", d).unwrap();
    assert_eq!(uid, alice);
    assert_eq!(r.device_user(d), Some(alice), "binding durable");
}

#[test]
fn the_password_is_hashed_with_a_fresh_salt() {
    let mut r = registry();
    r.signup("a", "n", "secret", 0).unwrap();
    r.signup("b", "n", "secret", 0).unwrap();
    let rows = r.take_writes().accounts;
    assert_eq!(rows.len(), 2);
    for row in &rows {
        assert!(
            row.password_hash.starts_with("$argon2id$v=19$m=19456,t=2,p=1$"),
            "{}",
            row.password_hash
        );
        assert_eq!(row.password_hash.len(), 97);
        assert!(!row.password_hash.contains("secret"));
        assert_eq!(row.nickname, "n");
    }
    assert_ne!(rows[0].password_hash, rows[1].password_hash);
    assert_eq!((rows[0].key().id, rows[1].key().id), (1, 2));
}

#[test]
fn signup_needs_both_fields() {
    let mut r = registry();
    assert_eq!(r.signup("", "n", "pw", 0).unwrap_err(), AccountError::FieldsRequired);
    assert_eq!(
        r.signup("a", "n", "", 0).unwrap_err().to_string(),
        "username and password are required"
    );
    assert_eq!(r.signup("a", "", "pw", 0), Ok(1), "the nickname may be empty");
    assert_eq!(r.signup("a", "", "pw", 0).unwrap_err().to_string(), "username taken");
}

#[test]
fn enrolment_takes_the_hash_as_it_comes() {
    let mut r = registry();
    let d = r.new_device().unwrap();
    assert_eq!(
        r.enrol("a", "n", Err("no memory".to_string()), d).unwrap_err().to_string(),
        "hash: no memory"
    );
    assert_eq!(r.device_user(d), None);
    assert_eq!(r.enrol("a", "n", Ok("H".to_string()), d), Ok(1));
    assert_eq!(r.device_user(d), Some(1));
    let writes = r.take_writes();
    assert_eq!(writes.accounts, vec![Account { nickname: "n".to_string(), ..account(1, "a", "H") }]);
    assert_eq!(writes.devices, vec![
        Device { id: 1, user_id: 0, global: 0 },
        Device { id: 1, user_id: 1, global: 0 },
    ]);
    assert!(writes.nodes.is_empty());
}

#[test]
fn an_unreadable_stored_hash_is_said_to_be_one() {
    let mut r = Registry::open(vec![account(4, "a", "not a hash")], Vec::new(), Vec::new());
    let e = r.login("a", "pw", 0).unwrap_err();
    assert!(e.to_string().starts_with("stored hash: "), "{}", e.to_string());
    assert_ne!(e, AccountError::InvalidCredentials);
}

#[test]
fn a_login_ends_by_its_check() {
    let mut r = registry();
    let d = r.new_device().unwrap();
    let a = account(9, "a", "H");
    assert_eq!(
        r.finish_login(&a, Ok(false), d).unwrap_err(),
        AccountError::InvalidCredentials
    );
    assert_eq!(
        r.finish_login(&a, Err("x".to_string()), d).unwrap_err(),
        AccountError::StoredHash("x".to_string())
    );
    assert_eq!(r.device_user(d), None);
    assert_eq!(r.finish_login(&a, Ok(true), d), Ok(9));
    assert_eq!(r.device_user(d), Some(9));
}

#[test]
fn a_login_outlives_later_signups() {
    let mut r = registry();
    let alice = r.signup("alice", "", "pw-a", 0).unwrap();
    let bob = r.signup("bob", "", "pw-b", 0).unwrap();
    let d = r.new_device().unwrap();
    let other = r.new_device().unwrap();
    assert_eq!(r.login("bob", "pw-b", d), Ok(bob));
    r.take_writes();
    for _ in 0..2 {
        assert_eq!(r.login("alice", "pw-a", d), Ok(alice));
        assert_eq!(r.device_user(d), Some(alice), "whoever it was bound to");
        assert_eq!(r.device_user(other), None);
        assert!(r.take_writes().accounts.is_empty());
    }
}

#[test]
fn a_login_on_an_unknown_device_binds_nothing() {
    let mut r = registry();
    r.enrol("a", "", Ok("H".to_string()), 5).unwrap();
    assert_eq!(r.device_user(5), None);
    assert!(r.take_writes().devices.is_empty());
}

#[test]
fn devices_are_minted_above_all_there_are() {
    let mut r = Registry::open(
        Vec::new(),
        vec![Device { id: 40, user_id: 3, global: 0 }, Device { id: 8, user_id: 0, global: 0 }],
        Vec::new(),
    );
    assert_eq!(r.new_device(), Ok(41));
    assert_eq!(r.device_user(40), Some(3));
    assert_eq!(r.device_user(8), None, "a device without a user");
    assert_eq!(r.device(8), Some(Device { id: 8, user_id: 0, global: 0 }));
    assert_eq!(r.device(9), None);
    assert_eq!(r.device_user(41), None);
    assert!(r.can_mint() && r.can_enrol() && r.can_list_more());
    let full = Registry::open(
        vec![account(u64::MAX, "a", "")],
        vec![Device { id: u64::MAX, user_id: 0, global: 0 }],
        Vec::new(),
    );
    assert!(!full.can_mint() && !full.can_enrol());
}

#[test]
fn the_registry_is_rebuilt_from_its_journal() {
    let mut r = registry();
    let d = r.new_device().unwrap();
    r.signup("a", "", "pw", d).unwrap();
    r.nodes().create_at("home", "K", 1).unwrap();
    let w = r.take_writes();
    let mut again = Registry::open(w.accounts, w.devices, w.nodes);
    assert_eq!(again.device_user(d), Some(1));
    assert_eq!(again.login("a", "pw", d), Ok(1));
    assert_eq!(again.nodes().list().len(), 1);
    assert_eq!(again.new_device(), Ok(d + 1));
    assert_eq!(Device { id: 3, user_id: 0, global: 0 }.key().id, 3);
}
