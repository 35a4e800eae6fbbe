//! The account registry, the device anchors and their binding.
//!
//! There are exactly two kinds of identity. A device id is minted on first
//! connect; a reconnect echoes it and restores the user it is bound to. A
//! user id is created by a signup and restored by a login, whose password is
//! checked against an argon2id hash. The username is open-ended runtime
//! data, never a key.

use crate::nodes::{Node, NodeStore, NodeView};
use crate::table::{
    lemma_put_again, lemma_put_appends, lemma_put_one, lemma_watermark, ordered, put_all,
    row_under, views, watermark, written, written_row_is_read_back, Keyed, Record, Table,
    TableView,
};
use crate::text::{same, starts_with};
use argon2::password_hash::rand_core::OsRng;
use argon2::password_hash::SaltString;
use argon2::{Argon2, PasswordHash, PasswordHasher, PasswordVerifier};
use vstd::prelude::*;
use vstd::utf8::encode_utf8;

verus! {

/// The key of an account.
#[derive(Debug, Clone, Copy, PartialEq, Eq, Default, Structural)]
pub struct AccountKey {
    pub id: u64,
}

/// An account. The password hash is an argon2id string with its salt in it,
/// never the password.
#[derive(Debug, PartialEq)]
pub struct Account {
    /// The proxy id, mirrored in the payload.
    pub id: u64,
    pub username: String,
    pub nickname: String,
    pub password_hash: String,
    /// The group of the registry-wide watermark, always 0.
    pub global: u32,
}

/// An account by what it holds.
pub struct AccountView {
    pub id: u64,
    pub username: Seq<char>,
    pub nickname: Seq<char>,
    pub password_hash: Seq<char>,
    pub global: u32,
}

impl View for Account {
    type V = AccountView;

    open spec fn view(&self) -> AccountView {
        AccountView {
            id: self.id,
            username: self.username@,
            nickname: self.nickname@,
            password_hash: self.password_hash@,
            global: self.global,
        }
    }
}

impl Clone for Account {
    fn clone(&self) -> (copy: Self)
        ensures
            copy@ == self@,
    {
        Account {
            id: self.id,
            username: self.username.clone(),
            nickname: self.nickname.clone(),
            password_hash: self.password_hash.clone(),
            global: self.global,
        }
    }
}

impl Keyed for AccountView {
    open spec fn key_of(self) -> u64 {
        self.id
    }
}

impl Record for Account {
    fn id_of(&self) -> (id: u64) {
        self.id
    }

    fn copy_of(&self) -> (copy: Self) {
        self.clone()
    }
}

impl Account {
    /// The key the account is stored under.
    pub fn key(&self) -> (key: AccountKey)
        ensures
            key.id == self.id,
    {
        AccountKey { id: self.id }
    }
}

/// The key of a device.
#[derive(Debug, Clone, Copy, PartialEq, Eq, Default, Structural)]
pub struct DeviceKey {
    pub id: u64,
}

/// A device and the user it is bound to, 0 for none.
#[derive(Debug, Clone, Copy, PartialEq, Eq, Structural)]
pub struct Device {
    pub id: u64,
    pub user_id: u64,
    pub global: u32,
}

impl View for Device {
    type V = Device;

    open spec fn view(&self) -> Device {
        *self
    }
}

impl Keyed for Device {
    open spec fn key_of(self) -> u64 {
        self.id
    }
}

impl Record for Device {
    fn id_of(&self) -> (id: u64) {
        self.id
    }

    fn copy_of(&self) -> (copy: Self) {
        *self
    }
}

impl Device {
    /// The key the device is stored under.
    pub fn key(&self) -> (key: DeviceKey)
        ensures
            key.id == self.id,
    {
        DeviceKey { id: self.id }
    }
}

/// Why the registry refuses a request.
#[derive(Debug, PartialEq)]
pub enum AccountError {
    /// The username or the password is empty.
    FieldsRequired,
    /// The password could not be hashed.
    Hashing(String),
    UsernameTaken,
    /// Unknown username or wrong password: one error for both.
    InvalidCredentials,
    /// The stored hash is unreadable.
    StoredHash(String),
}

/// An error by what it holds.
pub enum AccountErrorView {
    FieldsRequired,
    Hashing(Seq<char>),
    UsernameTaken,
    InvalidCredentials,
    StoredHash(Seq<char>),
}

impl View for AccountError {
    type V = AccountErrorView;

    open spec fn view(&self) -> AccountErrorView {
        match self {
            AccountError::FieldsRequired => AccountErrorView::FieldsRequired,
            AccountError::Hashing(text) => AccountErrorView::Hashing(text@),
            AccountError::UsernameTaken => AccountErrorView::UsernameTaken,
            AccountError::InvalidCredentials => AccountErrorView::InvalidCredentials,
            AccountError::StoredHash(text) => AccountErrorView::StoredHash(text@),
        }
    }
}

/// The text of an error.
pub open spec fn account_error_text(error: AccountErrorView) -> Seq<char> {
    match error {
        AccountErrorView::FieldsRequired => "username and password are required"@,
        AccountErrorView::Hashing(text) => "hash: "@ + text,
        AccountErrorView::UsernameTaken => "username taken"@,
        AccountErrorView::InvalidCredentials => "invalid credentials"@,
        AccountErrorView::StoredHash(text) => "stored hash: "@ + text,
    }
}

impl AccountError {
    pub fn to_string(&self) -> (text: String)
        ensures
            text@ == account_error_text(self@),
    {
        match self {
            AccountError::FieldsRequired => "username and password are required".to_string(),
            AccountError::Hashing(cause) => {
                let mut text = "hash: ".to_string();
                text.append(cause.as_str());
                text
            },
            AccountError::UsernameTaken => "username taken".to_string(),
            AccountError::InvalidCredentials => "invalid credentials".to_string(),
            AccountError::StoredHash(cause) => {
                let mut text = "stored hash: ".to_string();
                text.append(cause.as_str());
                text
            },
        }
    }
}

/// What `Argon2::verify_password` says of a password and a hash string:
/// whether they match, or the error text for a string that is no hash.
pub uninterp spec fn password_check(password: Seq<char>, hash: Seq<char>) -> Result<
    bool,
    Seq<char>,
>;

pub open spec fn check_result(r: Result<bool, String>) -> Result<bool, Seq<char>> {
    match r {
        Ok(matches) => Ok(matches),
        Err(text) => Err(text@),
    }
}

pub open spec fn hash_result(r: Result<String, String>) -> Result<Seq<char>, Seq<char>> {
    match r {
        Ok(hash) => Ok(hash@),
        Err(text) => Err(text@),
    }
}

/// The password is not too long to be hashed.
pub open spec fn hashable(password: Seq<char>) -> bool {
    encode_utf8(password).len() <= 0xFFFF_FFFF
}

/// What every hash begins with: the algorithm, its version and its
/// parameters.
pub open spec fn hash_prefix() -> Seq<char> {
    "$argon2id$v=19$m=19456,t=2,p=1$"@
}

/// A hash that was made of the password, or the error for a password that is
/// too long.
pub open spec fn hash_of(password: Seq<char>, hash: Result<Seq<char>, Seq<char>>) -> bool {
    match hash {
        Ok(h) => {
            &&& hashable(password)
            &&& starts_with(h, hash_prefix())
            &&& h.len() == 97
            &&& password_check(password, h) == Ok::<bool, Seq<char>>(true)
        },
        Err(text) => !hashable(password) && text == "invalid password"@,
    }
}

/// `Argon2::hash_password` with a random salt, as a hash string, or its
/// error as text. It fails for a password of more than `MAX_PWD_LEN` bytes
/// and for no other. The hash is another on each call; what is claimed of it
/// is that the password matches it, that it begins with the default
/// algorithm, version and parameters, and its length.
#[verifier::external_body]
fn hash_password(password: &str) -> (hash: Result<String, String>)
    ensures
        hash_of(password@, hash_result(hash)),
{
    let salt = SaltString::generate(&mut OsRng);
    Argon2::default()
        .hash_password(password.as_bytes(), &salt)
        .map(|h| h.to_string())
        .map_err(|e| e.to_string())
}

/// `Argon2::verify_password` against a hash string: whether they match, or,
/// where `PasswordHash::new` cannot read the string, its error as text.
#[verifier::external_body]
fn verify_password(password: &str, hash: &str) -> (matches: Result<bool, String>)
    ensures
        check_result(matches) == password_check(password@, hash@),
{
    let parsed = PasswordHash::new(hash).map_err(|e| e.to_string())?;
    Ok(Argon2::default().verify_password(password.as_bytes(), &parsed).is_ok())
}

/// The registry by its tables.
pub struct RegistryView {
    pub accounts: TableView<AccountView>,
    pub devices: TableView<Device>,
    pub nodes: TableView<NodeView>,
}

/// The index of the first account of a name, or the number of accounts when
/// there is none.
pub open spec fn name_place(rows: Seq<AccountView>, username: Seq<char>) -> int
    decreases rows.len(),
{
    if rows.len() == 0 || rows[0].username == username {
        0
    } else {
        1 + name_place(rows.skip(1), username)
    }
}

/// The account of a name.
pub open spec fn account_named(rows: Seq<AccountView>, username: Seq<char>) -> Option<AccountView> {
    let at = name_place(rows, username);
    if at < rows.len() {
        Some(rows[at])
    } else {
        None
    }
}

/// The user a device is bound to.
pub open spec fn bound_user(rows: Seq<Device>, id: u64) -> Option<u64> {
    match row_under(rows, id) {
        Some(device) => if device.user_id != 0 {
            Some(device.user_id)
        } else {
            None
        },
        None => None,
    }
}

/// The devices after one was bound to a user. A device without a row stays
/// without.
pub open spec fn bound(devices: TableView<Device>, id: u64, user_id: u64) -> TableView<Device> {
    match row_under(devices.rows, id) {
        Some(device) => written(devices, seq![Device { user_id, ..device }]),
        None => devices,
    }
}

/// The device minted next.
pub open spec fn next_device(rows: Seq<Device>) -> Device {
    Device { id: (watermark(rows) + 1) as u64, user_id: 0, global: 0 }
}

/// The account created next.
pub open spec fn next_account(
    rows: Seq<AccountView>,
    username: Seq<char>,
    nickname: Seq<char>,
    hash: Seq<char>,
) -> AccountView {
    AccountView {
        id: (watermark(rows) + 1) as u64,
        username,
        nickname,
        password_hash: hash,
        global: 0,
    }
}

/// What an enrolment answers.
pub open spec fn enrol_answer(
    rows: Seq<AccountView>,
    username: Seq<char>,
    hash: Result<Seq<char>, Seq<char>>,
) -> Result<u64, AccountErrorView> {
    match hash {
        Err(text) => Err(AccountErrorView::Hashing(text)),
        Ok(_) => if account_named(rows, username) is Some {
            Err(AccountErrorView::UsernameTaken)
        } else {
            Ok((watermark(rows) + 1) as u64)
        },
    }
}

/// The registry after an enrolment: the account created and the device bound
/// to it, or nothing changed when it is refused.
pub open spec fn enrolled(
    s: RegistryView,
    username: Seq<char>,
    nickname: Seq<char>,
    hash: Result<Seq<char>, Seq<char>>,
    device_id: u64,
) -> RegistryView {
    match (enrol_answer(s.accounts.rows, username, hash), hash) {
        (Ok(id), Ok(h)) => RegistryView {
            accounts: written(
                s.accounts,
                seq![next_account(s.accounts.rows, username, nickname, h)],
            ),
            devices: bound(s.devices, device_id, id),
            nodes: s.nodes,
        },
        _ => s,
    }
}

/// What a signup may answer and make of the registry. It is refused without
/// a username or a password; else it is an enrolment with some hash of the
/// password, the salt of which is random.
pub open spec fn signup_outcome(
    s: RegistryView,
    username: Seq<char>,
    nickname: Seq<char>,
    password: Seq<char>,
    device_id: u64,
    answer: Result<u64, AccountErrorView>,
    after: RegistryView,
) -> bool {
    if username.len() == 0 || password.len() == 0 {
        answer == Err::<u64, AccountErrorView>(AccountErrorView::FieldsRequired) && after == s
    } else {
        exists|hash: Result<Seq<char>, Seq<char>>|
            {
                &&& #[trigger] hash_of(password, hash)
                &&& answer == enrol_answer(s.accounts.rows, username, hash)
                &&& after == enrolled(s, username, nickname, hash, device_id)
            }
    }
}

/// What a login answers once the check of the password is known.
pub open spec fn checked_answer(
    account: AccountView,
    check: Result<bool, Seq<char>>,
) -> Result<u64, AccountErrorView> {
    match check {
        Err(text) => Err(AccountErrorView::StoredHash(text)),
        Ok(false) => Err(AccountErrorView::InvalidCredentials),
        Ok(true) => Ok(account.id),
    }
}

/// What a login answers.
pub open spec fn login_answer(
    rows: Seq<AccountView>,
    username: Seq<char>,
    password: Seq<char>,
) -> Result<u64, AccountErrorView> {
    match account_named(rows, username) {
        None => Err(AccountErrorView::InvalidCredentials),
        Some(account) => checked_answer(account, password_check(password, account.password_hash)),
    }
}

/// The registry after a login with this answer: the device bound to the
/// user, or nothing changed when it is refused.
pub open spec fn logged_in(
    s: RegistryView,
    answer: Result<u64, AccountErrorView>,
    device_id: u64,
) -> RegistryView {
    match answer {
        Ok(id) => RegistryView { devices: bound(s.devices, device_id, id), ..s },
        Err(_) => s,
    }
}

pub open spec fn id_result(r: Result<u64, AccountError>) -> Result<u64, AccountErrorView> {
    match r {
        Ok(id) => Ok(id),
        Err(error) => Err(error@),
    }
}

proof fn lemma_name_place(rows: Seq<AccountView>, username: Seq<char>, at: int)
    requires
        0 <= at <= rows.len(),
        forall|j: int| 0 <= j < at ==> (#[trigger] rows[j]).username != username,
        at < rows.len() ==> rows[at].username == username,
    ensures
        name_place(rows, username) == at,
    decreases rows.len(),
{
    if rows.len() > 0 && at > 0 {
        assert(rows[0].username != username);
        let rest = rows.skip(1);
        assert forall|j: int| 0 <= j < at - 1 implies (#[trigger] rest[j]).username != username by {
            assert(rest[j] == rows[j + 1]);
        }
        lemma_name_place(rest, username, at - 1);
    }
}

proof fn lemma_names_before(rows: Seq<AccountView>, username: Seq<char>)
    ensures
        0 <= name_place(rows, username) <= rows.len(),
        forall|j: int|
            0 <= j < name_place(rows, username) ==> (#[trigger] rows[j]).username != username,
        name_place(rows, username) < rows.len() ==> rows[name_place(rows, username)].username
            == username,
    decreases rows.len(),
{
    if rows.len() > 0 && rows[0].username != username {
        let rest = rows.skip(1);
        lemma_names_before(rest, username);
        assert forall|j: int| 0 <= j < name_place(rows, username) implies (
        #[trigger] rows[j]).username != username by {
            if j > 0 {
                assert(rest[j - 1] == rows[j]);
            }
        }
    }
}

/// The rows written to the registry since its journal was last taken.
pub struct Writes {
    pub accounts: Vec<Account>,
    pub devices: Vec<Device>,
    pub nodes: Vec<Node>,
}

/// The registry: accounts, devices and nodes.
pub struct Registry {
    accounts: Table<Account>,
    devices: Table<Device>,
    nodes: NodeStore,
}

impl View for Registry {
    type V = RegistryView;

    closed spec fn view(&self) -> RegistryView {
        RegistryView { accounts: self.accounts@, devices: self.devices@, nodes: self.nodes@ }
    }
}

impl Registry {
    /// Every table stands in the order of its ids.
    pub open spec fn wf(&self) -> bool {
        ordered(self@.accounts.rows) && ordered(self@.devices.rows) && ordered(self@.nodes.rows)
    }

    /// There is an id left for one more account.
    pub open spec fn accounts_left(&self) -> bool {
        watermark(self@.accounts.rows) < u64::MAX
    }

    /// There is an id left for one more device.
    pub open spec fn devices_left(&self) -> bool {
        watermark(self@.devices.rows) < u64::MAX
    }

    /// The registry over the records of the durable side.
    pub fn open(accounts: Vec<Account>, devices: Vec<Device>, nodes: Vec<Node>) -> (registry: Self)
        ensures
            registry.wf(),
            registry@.accounts.rows == put_all(Seq::empty(), views(accounts@)),
            registry@.devices.rows == put_all(Seq::empty(), views(devices@)),
            registry@.nodes.rows == put_all(Seq::empty(), views(nodes@)),
            registry@.accounts.writes == Seq::<AccountView>::empty(),
            registry@.devices.writes == Seq::<Device>::empty(),
            registry@.nodes.writes == Seq::<NodeView>::empty(),
    {
        Registry {
            accounts: Table::load(accounts),
            devices: Table::load(devices),
            nodes: NodeStore::new(nodes),
        }
    }

    /// The node registry of the same instance.
    pub fn nodes(&mut self) -> (nodes: &mut NodeStore)
        ensures
            nodes@ == old(self)@.nodes,
            final(self)@ == (RegistryView { nodes: final(nodes)@, ..old(self)@ }),
    {
        &mut self.nodes
    }

    /// Mints a device on first connect: the next id, bound to nobody.
    pub fn new_device(&mut self) -> (r: Result<u64, AccountError>)
        requires
            old(self).wf(),
            old(self).devices_left(),
        ensures
            final(self).wf(),
            r == Ok::<u64, AccountError>(next_device(old(self)@.devices.rows).id),
            final(self)@ == (RegistryView {
                devices: written(old(self)@.devices, seq![next_device(old(self)@.devices.rows)]),
                ..old(self)@
            }),
    {
        let id: u64 = self.devices.last_id() + 1;
        self.devices.put(Device { id, user_id: 0, global: 0 });
        Ok(id)
    }

    /// The user that a device is bound to; nothing for a device without a
    /// row and for one that is bound to nobody.
    pub fn device_user(&self, id: u64) -> (user: Option<u64>)
        requires
            self.wf(),
        ensures
            user == bound_user(self@.devices.rows, id),
    {
        match self.devices.get(id) {
            Some(device) => if device.user_id != 0 {
                Some(device.user_id)
            } else {
                None
            },
            None => None,
        }
    }

    /// The device under an id.
    pub fn device(&self, id: u64) -> (device: Option<Device>)
        requires
            self.wf(),
        ensures
            device == row_under(self@.devices.rows, id),
    {
        self.devices.get(id)
    }

    /// Creates the account with a hash of its password, and binds the
    /// device.
    pub fn enrol(
        &mut self,
        username: &str,
        nickname: &str,
        hash: Result<String, String>,
        device_id: u64,
    ) -> (r: Result<u64, AccountError>)
        requires
            old(self).wf(),
            hash is Ok && account_named(old(self)@.accounts.rows, username@) is None
                ==> old(self).accounts_left(),
        ensures
            final(self).wf(),
            id_result(r) == enrol_answer(old(self)@.accounts.rows, username@, hash_result(hash)),
            final(self)@ == enrolled(
                old(self)@,
                username@,
                nickname@,
                hash_result(hash),
                device_id,
            ),
    {
        let hash = match hash {
            Ok(hash) => hash,
            Err(text) => {
                return Err(AccountError::Hashing(text));
            },
        };
        if self.find_account(username).is_some() {
            return Err(AccountError::UsernameTaken);
        }
        let id: u64 = self.accounts.last_id() + 1;
        self.accounts.put(
            Account {
                id,
                username: username.to_string(),
                nickname: nickname.to_string(),
                password_hash: hash,
                global: 0,
            },
        );
        self.bind_device(device_id, id);
        Ok(id)
    }

    /// Creates an account under a username that nobody has, and binds the
    /// device. It succeeds unless a field is empty, the name is taken or the
    /// password is too long to be hashed. The hash has a random salt, so what
    /// is stored is said of every hash the password matches; a login with the
    /// same password then succeeds.
    pub fn signup(
        &mut self,
        username: &str,
        nickname: &str,
        password: &str,
        device_id: u64,
    ) -> (r: Result<u64, AccountError>)
        requires
            old(self).wf(),
            username@.len() > 0 && password@.len() > 0 && hashable(password@) && account_named(
                old(self)@.accounts.rows,
                username@,
            ) is None ==> old(self).accounts_left(),
        ensures
            final(self).wf(),
            r is Ok <==> username@.len() > 0 && password@.len() > 0 && hashable(password@)
                && account_named(old(self)@.accounts.rows, username@) is None,
            signup_outcome(
                old(self)@,
                username@,
                nickname@,
                password@,
                device_id,
                id_result(r),
                final(self)@,
            ),
            r matches Ok(id) ==> login_answer(final(self)@.accounts.rows, username@, password@)
                == Ok::<u64, AccountErrorView>(id),
    {
        if username.is_empty() || password.is_empty() {
            return Err(AccountError::FieldsRequired);
        }
        let hash = hash_password(password);
        let ghost made = hash_result(hash);
        let ghost before = self@;
        let r = self.enrol(username, nickname, hash, device_id);
        assert(hash_of(password@, made));
        proof {
            if made is Ok && r is Ok {
                lemma_enrolled(before.accounts, username@, nickname@, made->Ok_0);
            }
        }
        r
    }

    /// Ends a login of an account once its password was checked.
    pub fn finish_login(
        &mut self,
        account: &Account,
        check: Result<bool, String>,
        device_id: u64,
    ) -> (r: Result<u64, AccountError>)
        requires
            old(self).wf(),
        ensures
            final(self).wf(),
            id_result(r) == checked_answer(account@, check_result(check)),
            final(self)@ == logged_in(
                old(self)@,
                checked_answer(account@, check_result(check)),
                device_id,
            ),
    {
        match check {
            Err(text) => Err(AccountError::StoredHash(text)),
            Ok(matches) => {
                if !matches {
                    return Err(AccountError::InvalidCredentials);
                }
                self.bind_device(device_id, account.id);
                Ok(account.id)
            },
        }
    }

    /// Logs a user in: finds the account, checks the password and binds the
    /// device. An unknown name and a wrong password share one error.
    pub fn login(&mut self, username: &str, password: &str, device_id: u64) -> (r: Result<
        u64,
        AccountError,
    >)
        requires
            old(self).wf(),
        ensures
            final(self).wf(),
            id_result(r) == login_answer(old(self)@.accounts.rows, username@, password@),
            final(self)@ == logged_in(
                old(self)@,
                login_answer(old(self)@.accounts.rows, username@, password@),
                device_id,
            ),
    {
        match self.find_account(username) {
            None => Err(AccountError::InvalidCredentials),
            Some(account) => {
                let check = verify_password(password, account.password_hash.as_str());
                self.finish_login(&account, check, device_id)
            },
        }
    }

    fn find_account(&self, username: &str) -> (account: Option<Account>)
        ensures
            match account_named(self@.accounts.rows, username@) {
                Some(v) => account matches Some(a) && a@ == v,
                None => account is None,
            },
    {
        let ghost rows = self@.accounts.rows;
        let mut i: usize = 0;
        while i < self.accounts.len()
            invariant
                rows == self@.accounts.rows,
                i <= rows.len(),
                forall|j: int| 0 <= j < i ==> (#[trigger] rows[j]).username != username@,
            decreases rows.len() - i,
        {
            let account = self.accounts.row(i);
            if same(account.username.as_str(), username) {
                proof {
                    lemma_name_place(rows, username@, i as int);
                }
                return Some(account.clone());
            }
            i = i + 1;
        }
        proof {
            lemma_name_place(rows, username@, i as int);
        }
        None
    }

    fn bind_device(&mut self, device_id: u64, user_id: u64)
        requires
            old(self).wf(),
        ensures
            final(self).wf(),
            final(self)@ == (RegistryView {
                devices: bound(old(self)@.devices, device_id, user_id),
                ..old(self)@
            }),
    {
        if let Some(device) = self.devices.get(device_id) {
            self.devices.put(Device { id: device.id, user_id, global: device.global });
        }
    }

    /// Whether there is an id left for one more account.
    pub fn can_enrol(&self) -> (r: bool)
        ensures
            r == self.accounts_left(),
    {
        self.accounts.last_id() < u64::MAX
    }

    /// Whether there is an id left for one more device.
    pub fn can_mint(&self) -> (r: bool)
        ensures
            r == self.devices_left(),
    {
        self.devices.last_id() < u64::MAX
    }

    /// Whether there is an id left for one more node record.
    pub fn can_list_more(&self) -> (r: bool)
        ensures
            r == (watermark(self@.nodes.rows) < u64::MAX),
    {
        self.nodes.can_grow()
    }

    /// Takes the journal of every table.
    pub fn take_writes(&mut self) -> (writes: Writes)
        ensures
            views(writes.accounts@) == old(self)@.accounts.writes,
            views(writes.devices@) == old(self)@.devices.writes,
            views(writes.nodes@) == old(self)@.nodes.writes,
            final(self)@.accounts.rows == old(self)@.accounts.rows,
            final(self)@.devices.rows == old(self)@.devices.rows,
            final(self)@.nodes.rows == old(self)@.nodes.rows,
            final(self)@.accounts.writes == Seq::<AccountView>::empty(),
            final(self)@.devices.writes == Seq::<Device>::empty(),
            final(self)@.nodes.writes == Seq::<NodeView>::empty(),
    {
        Writes {
            accounts: self.accounts.take_writes(),
            devices: self.devices.take_writes(),
            nodes: self.nodes.take_writes(),
        }
    }
}

/// An account that was created is found by its name.
proof fn lemma_enrolled(
    accounts: TableView<AccountView>,
    username: Seq<char>,
    nickname: Seq<char>,
    hash: Seq<char>,
)
    requires
        ordered(accounts.rows),
        watermark(accounts.rows) < u64::MAX,
        account_named(accounts.rows, username) is None,
    ensures
        ({
            let account = next_account(accounts.rows, username, nickname, hash);
            let after = written(accounts, seq![account]).rows;
            &&& after == accounts.rows.push(account)
            &&& ordered(after)
            &&& account_named(after, username) == Some(account)
            &&& forall|j: int|
                0 <= j < accounts.rows.len() ==> (#[trigger] accounts.rows[j]).username != username
        }),
{
    let account = next_account(accounts.rows, username, nickname, hash);
    lemma_put_appends(accounts.rows, account);
    lemma_put_one(accounts.rows, account);
    lemma_names_before(accounts.rows, username);
    lemma_name_place(accounts.rows.push(account), username, accounts.rows.len() as int);
}

/// No username belongs to two accounts.
pub open spec fn names_unique(rows: Seq<AccountView>) -> bool {
    forall|i: int, j: int|
        0 <= i < rows.len() && 0 <= j < rows.len() && (#[trigger] rows[i]).username == (
        #[trigger] rows[j]).username ==> i == j
}

/// No enrolment gives a username to a second account; a login changes no
/// account at all.
pub proof fn usernames_stay_unique(
    s: RegistryView,
    username: Seq<char>,
    nickname: Seq<char>,
    hash: Result<Seq<char>, Seq<char>>,
    password: Seq<char>,
    device_id: u64,
)
    requires
        ordered(s.accounts.rows),
        watermark(s.accounts.rows) < u64::MAX,
        names_unique(s.accounts.rows),
    ensures
        names_unique(enrolled(s, username, nickname, hash, device_id).accounts.rows),
        logged_in(s, login_answer(s.accounts.rows, username, password), device_id).accounts
            == s.accounts,
{
    if hash is Ok && account_named(s.accounts.rows, username) is None {
        lemma_enrolled(s.accounts, username, nickname, hash->Ok_0);
    }
}

/// Accounts are never changed nor removed by an enrolment, and a new one gets
/// an id above that of every account there ever was.
pub proof fn accounts_are_kept(
    s: RegistryView,
    username: Seq<char>,
    nickname: Seq<char>,
    hash: Result<Seq<char>, Seq<char>>,
    device_id: u64,
    i: int,
)
    requires
        ordered(s.accounts.rows),
        watermark(s.accounts.rows) < u64::MAX,
        0 <= i < s.accounts.rows.len(),
    ensures
        ({
            let after = enrolled(s, username, nickname, hash, device_id).accounts.rows;
            &&& s.accounts.rows.len() <= after.len()
            &&& after[i] == s.accounts.rows[i]
            &&& enrol_answer(s.accounts.rows, username, hash) matches Ok(id)
                ==> s.accounts.rows[i].id < id
        }),
{
    lemma_watermark(s.accounts.rows, i);
    if hash is Ok && account_named(s.accounts.rows, username) is None {
        lemma_enrolled(s.accounts, username, nickname, hash->Ok_0);
    }
}

/// A signup is remembered: the password whose hash was stored logs in.
pub proof fn signup_then_login(
    s: RegistryView,
    username: Seq<char>,
    nickname: Seq<char>,
    password: Seq<char>,
    hash: Seq<char>,
    device_id: u64,
    id: u64,
)
    requires
        ordered(s.accounts.rows),
        watermark(s.accounts.rows) < u64::MAX,
        hash_of(password, Ok(hash)),
        enrol_answer(s.accounts.rows, username, Ok(hash)) == Ok::<u64, AccountErrorView>(id),
    ensures
        login_answer(
            enrolled(s, username, nickname, Ok(hash), device_id).accounts.rows,
            username,
            password,
        ) == Ok::<u64, AccountErrorView>(id),
{
    lemma_enrolled(s.accounts, username, nickname, hash);
}

/// A refused login tells nobody whether the username exists: an unknown name
/// and a wrong password get the same answer.
pub proof fn refusals_look_alike(
    rows: Seq<AccountView>,
    known: Seq<char>,
    unknown: Seq<char>,
    password: Seq<char>,
    account: AccountView,
)
    requires
        account_named(rows, unknown) is None,
        account_named(rows, known) == Some(account),
        password_check(password, account.password_hash) == Ok::<bool, Seq<char>>(false),
    ensures
        login_answer(rows, known, password) == login_answer(rows, unknown, password),
        login_answer(rows, known, password) is Err,
{
}

/// Binding a device is durable: the device is bound to that user from then
/// on, and every other device is bound to whom it was.
pub proof fn binding_is_remembered(
    devices: TableView<Device>,
    id: u64,
    user_id: u64,
    other: u64,
)
    requires
        ordered(devices.rows),
    ensures
        ({
            let after = bound(devices, id, user_id).rows;
            &&& ordered(after)
            &&& row_under(devices.rows, id) is Some && user_id != 0 ==> bound_user(after, id)
                == Some(user_id)
            &&& row_under(devices.rows, id) is None ==> bound_user(after, id) is None
            &&& other != id ==> bound_user(after, other) == bound_user(devices.rows, other)
        }),
{
    match row_under(devices.rows, id) {
        Some(device) => {
            let row = Device { user_id, ..device };
            lemma_put_one(devices.rows, row);
            written_row_is_read_back(devices.rows, row, id);
            written_row_is_read_back(devices.rows, row, other);
        },
        None => {},
    }
}

/// A device that was just minted has an id that no device had before, has a
/// row, and is bound to nobody. Every other device is bound to whom it was.
pub proof fn new_device_is_anonymous(devices: TableView<Device>, other: u64)
    requires
        ordered(devices.rows),
        watermark(devices.rows) < u64::MAX,
    ensures
        ({
            let device = next_device(devices.rows);
            let after = written(devices, seq![device]).rows;
            &&& ordered(after)
            &&& row_under(devices.rows, device.id) is None
            &&& row_under(after, device.id) == Some(device)
            &&& bound_user(after, device.id) is None
            &&& other != device.id ==> bound_user(after, other) == bound_user(devices.rows, other)
        }),
{
    let device = next_device(devices.rows);
    lemma_put_one(devices.rows, device);
    lemma_put_appends(devices.rows, device);
    written_row_is_read_back(devices.rows, device, device.id);
    written_row_is_read_back(devices.rows, device, other);
}

/// The password is not what is stored: a hash of it is another text, unless
/// the password itself is written as a hash of the same length.
pub proof fn password_is_not_stored(password: Seq<char>, hash: Seq<char>)
    requires
        hash_of(password, Ok(hash)),
        !starts_with(password, hash_prefix()) || password.len() != hash.len(),
    ensures
        hash != password,
{
}

/// An enrolment leaves every other name as it was, and the same name too
/// where it is known: its account, and so what a login with it answers.
pub proof fn enrolments_leave_other_logins_alone(
    s: RegistryView,
    newcomer: Seq<char>,
    nickname: Seq<char>,
    hash: Result<Seq<char>, Seq<char>>,
    device_id: u64,
    username: Seq<char>,
    password: Seq<char>,
)
    requires
        ordered(s.accounts.rows),
        watermark(s.accounts.rows) < u64::MAX,
        newcomer != username || account_named(s.accounts.rows, username) is Some,
    ensures
        ({
            let after = enrolled(s, newcomer, nickname, hash, device_id).accounts.rows;
            &&& ordered(after)
            &&& account_named(after, username) == account_named(s.accounts.rows, username)
            &&& login_answer(after, username, password) == login_answer(
                s.accounts.rows,
                username,
                password,
            )
        }),
{
    let rows = s.accounts.rows;
    if hash is Ok && account_named(rows, newcomer) is None {
        lemma_enrolled(s.accounts, newcomer, nickname, hash->Ok_0);
        let account = next_account(rows, newcomer, nickname, hash->Ok_0);
        let after = rows.push(account);
        lemma_names_before(rows, username);
        let at = name_place(rows, username);
        assert forall|j: int| 0 <= j < at implies (#[trigger] after[j]).username != username by {
            assert(after[j] == rows[j]);
        }
        if at < rows.len() {
            lemma_name_place(after, username, at);
        } else {
            lemma_name_place(after, username, at + 1);
        }
    }
}

/// A login that is answered with a user binds its device to that user,
/// whoever it was bound to, and changes no account and no other device. A
/// second one is answered alike and leaves the tables as they are.
pub proof fn login_binds_its_device(
    s: RegistryView,
    username: Seq<char>,
    password: Seq<char>,
    device_id: u64,
    user: u64,
    other: u64,
)
    requires
        ordered(s.devices.rows),
        login_answer(s.accounts.rows, username, password) == Ok::<u64, AccountErrorView>(user),
    ensures
        ({
            let answer = Ok::<u64, AccountErrorView>(user);
            let after = logged_in(s, answer, device_id);
            let again = logged_in(after, answer, device_id);
            &&& after.accounts == s.accounts
            &&& row_under(s.devices.rows, device_id) is Some && user != 0 ==> bound_user(
                after.devices.rows,
                device_id,
            ) == Some(user)
            &&& other != device_id ==> row_under(after.devices.rows, other) == row_under(
                s.devices.rows,
                other,
            )
            &&& login_answer(after.accounts.rows, username, password) == answer
            &&& again.accounts == after.accounts
            &&& again.devices.rows == after.devices.rows
        }),
{
    match row_under(s.devices.rows, device_id) {
        Some(device) => {
            let row = Device { user_id: user, ..device };
            let after = bound(s.devices, device_id, user);
            lemma_put_one(s.devices.rows, row);
            written_row_is_read_back(s.devices.rows, row, device_id);
            written_row_is_read_back(s.devices.rows, row, other);
            lemma_put_one(after.rows, row);
            lemma_put_again(after.rows, row);
        },
        None => {},
    }
}

}
