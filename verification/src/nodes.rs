//! Node identity: the registry of node keys and the verdicts a handshake
//! consults.
//!
//! A record is `{alias, public_key, status, created_at}` under a proxy id.
//! The alias is open-ended runtime data, never a key; public keys ride as
//! base64 text and are only compared. One approved key per alias is what
//! makes a conflict mean something: approving a second key replaces the
//! first, which falls to `revoked` and is never deleted. The history is the
//! audit.

use crate::clock::{epoch_nanos, now_ms, stamp};
use crate::table::{
    lemma_put_replaces, lemma_written_none, lemma_written_push, ordered, put_all, views, watermark,
    written, Keyed, Record, Table, TableView,
};
use crate::text::same;
use vstd::prelude::*;

verus! {

/// The key of a node record.
#[derive(Debug, Clone, Copy, PartialEq, Eq, Default, Structural)]
pub struct NodeKey {
    pub id: u64,
}

/// A node record.
#[derive(Debug, PartialEq, Default)]
pub struct Node {
    /// The proxy id, mirrored in the payload.
    pub id: u64,
    pub alias: String,
    /// The base64 text of an ed25519 public key, opaque here.
    pub public_key: String,
    /// `pending`, `approved` or `revoked`.
    pub status: String,
    /// Epoch milliseconds at the creation of the record.
    pub created_at: u64,
    /// The group of the registry-wide watermark, always 0.
    pub global: u32,
}

/// A node record by what it holds.
pub struct NodeView {
    pub id: u64,
    pub alias: Seq<char>,
    pub public_key: Seq<char>,
    pub status: Seq<char>,
    pub created_at: u64,
    pub global: u32,
}

impl View for Node {
    type V = NodeView;

    open spec fn view(&self) -> NodeView {
        NodeView {
            id: self.id,
            alias: self.alias@,
            public_key: self.public_key@,
            status: self.status@,
            created_at: self.created_at,
            global: self.global,
        }
    }
}

impl Clone for Node {
    fn clone(&self) -> (copy: Self)
        ensures
            copy@ == self@,
    {
        Node {
            id: self.id,
            alias: self.alias.clone(),
            public_key: self.public_key.clone(),
            status: self.status.clone(),
            created_at: self.created_at,
            global: self.global,
        }
    }
}

impl Keyed for NodeView {
    open spec fn key_of(self) -> u64 {
        self.id
    }
}

impl Record for Node {
    fn id_of(&self) -> (id: u64) {
        self.id
    }

    fn copy_of(&self) -> (copy: Self) {
        self.clone()
    }
}

impl Node {
    /// The key the record is stored under.
    pub fn key(&self) -> (key: NodeKey)
        ensures
            key.id == self.id,
    {
        NodeKey { id: self.id }
    }
}

/// The handshake verdict on a claim of an alias by a public key.
#[derive(Debug, Clone, Copy, PartialEq, Eq, Structural)]
pub enum Verdict {
    /// The key is approved for that alias.
    Registered,
    /// No decision yet. A fresh claim is queued as a pending record so that
    /// the operator can see and approve it; a claim that is already pending
    /// stays pending.
    Pending,
    /// A different key holds the approved slot of this alias.
    Conflict,
}

/// The trust mode, declared by the deployment. There is no default.
#[derive(Debug, Clone, Copy, PartialEq, Eq, Structural)]
pub enum Posture {
    Required,
    Open,
}

/// A text that names no trust mode.
#[derive(Debug)]
pub struct PostureError {
    pub given: String,
}

impl PostureError {
    pub fn to_string(&self) -> (text: String)
        ensures
            text@ == "identity: expected `required` | `open`, got `"@ + self.given@ + "`"@,
    {
        let mut text = "identity: expected `required` | `open`, got `".to_string();
        text.append(self.given.as_str());
        text.append("`");
        text
    }
}

impl Posture {
    /// The trust mode a text names.
    pub fn parse(v: &str) -> (r: Result<Self, PostureError>)
        ensures
            v@ == "required"@ ==> r == Ok::<Self, PostureError>(Posture::Required),
            v@ == "open"@ ==> r == Ok::<Self, PostureError>(Posture::Open),
            v@ != "required"@ && v@ != "open"@ ==> (r matches Err(e) && e.given@ == v@),
    {
        proof {
            reveal_strlit("required");
            reveal_strlit("open");
            assert("required"@.len() != "open"@.len());
        }
        if same(v, "required") {
            Ok(Posture::Required)
        } else if same(v, "open") {
            Ok(Posture::Open)
        } else {
            Err(PostureError { given: v.to_string() })
        }
    }
}

/// Why the registry refuses a request.
#[derive(Debug, PartialEq)]
pub enum NodeError {
    /// The alias or the public key is empty.
    FieldsRequired,
    /// The alias does not have exactly one pending record.
    NoUniquePending(String),
    /// The alias has no live record of the key.
    NoSuchRecord(String),
    /// The alias has no live record to revoke.
    NoLiveRecord(String),
}

/// An error by what it holds.
pub enum NodeErrorView {
    FieldsRequired,
    NoUniquePending(Seq<char>),
    NoSuchRecord(Seq<char>),
    NoLiveRecord(Seq<char>),
}

impl View for NodeError {
    type V = NodeErrorView;

    open spec fn view(&self) -> NodeErrorView {
        match self {
            NodeError::FieldsRequired => NodeErrorView::FieldsRequired,
            NodeError::NoUniquePending(alias) => NodeErrorView::NoUniquePending(alias@),
            NodeError::NoSuchRecord(alias) => NodeErrorView::NoSuchRecord(alias@),
            NodeError::NoLiveRecord(alias) => NodeErrorView::NoLiveRecord(alias@),
        }
    }
}

/// The text of an error.
pub open spec fn node_error_text(error: NodeErrorView) -> Seq<char> {
    match error {
        NodeErrorView::FieldsRequired => "alias and public_key are required"@,
        NodeErrorView::NoUniquePending(alias) => "no unique pending key for `"@ + alias
            + "` — approve by public_key"@,
        NodeErrorView::NoSuchRecord(alias) => "no such record for `"@ + alias + "`"@,
        NodeErrorView::NoLiveRecord(alias) => "no live record for `"@ + alias + "`"@,
    }
}

impl NodeError {
    pub fn to_string(&self) -> (text: String)
        ensures
            text@ == node_error_text(self@),
    {
        match self {
            NodeError::FieldsRequired => "alias and public_key are required".to_string(),
            NodeError::NoUniquePending(alias) => {
                let mut text = "no unique pending key for `".to_string();
                text.append(alias.as_str());
                text.append("` — approve by public_key");
                text
            },
            NodeError::NoSuchRecord(alias) => {
                let mut text = "no such record for `".to_string();
                text.append(alias.as_str());
                text.append("`");
                text
            },
            NodeError::NoLiveRecord(alias) => {
                let mut text = "no live record for `".to_string();
                text.append(alias.as_str());
                text.append("`");
                text
            },
        }
    }
}

/// Which records of an alias are meant.
#[derive(Clone, Copy)]
pub enum Pick {
    /// Those of the key.
    Own,
    /// Those of the key that are approved.
    OwnApproved,
    /// Those of the key that are pending.
    OwnPending,
    /// Those of the key that are not revoked.
    OwnLive,
    /// Those of any other key that are approved.
    OtherApproved,
    /// Those of any key that are pending.
    Pending,
}

/// The record is one that `pick` means for an alias and a key.
pub open spec fn picks(n: NodeView, pick: Pick, alias: Seq<char>, key: Seq<char>) -> bool {
    n.alias == alias && match pick {
        Pick::Own => n.public_key == key,
        Pick::OwnApproved => n.public_key == key && n.status == "approved"@,
        Pick::OwnPending => n.public_key == key && n.status == "pending"@,
        Pick::OwnLive => n.public_key == key && n.status != "revoked"@,
        Pick::OtherApproved => n.public_key != key && n.status == "approved"@,
        Pick::Pending => n.status == "pending"@,
    }
}

/// The index of the first such record, or the number of records when there
/// is none.
pub open spec fn first(rows: Seq<NodeView>, pick: Pick, alias: Seq<char>, key: Seq<char>) -> int
    decreases rows.len(),
{
    if rows.len() == 0 || picks(rows[0], pick, alias, key) {
        0
    } else {
        1 + first(rows.skip(1), pick, alias, key)
    }
}

/// There is such a record.
pub open spec fn some_row(rows: Seq<NodeView>, pick: Pick, alias: Seq<char>, key: Seq<char>) -> bool {
    exists|i: int| 0 <= i < rows.len() && #[trigger] picks(rows[i], pick, alias, key)
}

/// The record under another status.
pub open spec fn with_status(n: NodeView, status: Seq<char>) -> NodeView {
    NodeView { status, ..n }
}

/// A new pending record of an alias and a key.
pub open spec fn fresh(
    rows: Seq<NodeView>,
    alias: Seq<char>,
    key: Seq<char>,
    now: u64,
) -> NodeView {
    NodeView {
        id: (watermark(rows) + 1) as u64,
        alias,
        public_key: key,
        status: "pending"@,
        created_at: now,
        global: 0,
    }
}

/// A request for a record makes one.
pub open spec fn creates_row(rows: Seq<NodeView>, alias: Seq<char>, key: Seq<char>) -> bool {
    alias.len() > 0 && key.len() > 0 && !some_row(rows, Pick::OwnLive, alias, key)
}

/// A claim makes a record.
pub open spec fn claims_row(rows: Seq<NodeView>, alias: Seq<char>, key: Seq<char>) -> bool {
    alias.len() > 0 && key.len() > 0 && !some_row(rows, Pick::Own, alias, key)
}

/// What a claim is answered: its own approved record wins, then another
/// key's approved record makes the conflict, and otherwise the claim waits.
pub open spec fn verdict_of(rows: Seq<NodeView>, alias: Seq<char>, key: Seq<char>) -> Verdict {
    if some_row(rows, Pick::OwnApproved, alias, key) {
        Verdict::Registered
    } else if some_row(rows, Pick::OtherApproved, alias, key) {
        Verdict::Conflict
    } else {
        Verdict::Pending
    }
}

/// What a claim writes. A claim without a record is queued; one whose
/// records are all revoked is revived to the queue, unless another key holds
/// the alias.
pub open spec fn verdict_puts(
    rows: Seq<NodeView>,
    alias: Seq<char>,
    key: Seq<char>,
    now: u64,
) -> Seq<NodeView> {
    if some_row(rows, Pick::OwnApproved, alias, key) {
        Seq::empty()
    } else if !some_row(rows, Pick::Own, alias, key) {
        create_puts(rows, alias, key, now)
    } else if some_row(rows, Pick::OtherApproved, alias, key) || some_row(
        rows,
        Pick::OwnPending,
        alias,
        key,
    ) {
        Seq::empty()
    } else {
        seq![with_status(rows[first(rows, Pick::Own, alias, key)], "pending"@)]
    }
}

/// What the creation of a record writes: nothing for an empty field or a
/// record that is already live, else a fresh pending record.
pub open spec fn create_puts(
    rows: Seq<NodeView>,
    alias: Seq<char>,
    key: Seq<char>,
    now: u64,
) -> Seq<NodeView> {
    if alias.len() == 0 || key.len() == 0 || some_row(rows, Pick::OwnLive, alias, key) {
        Seq::empty()
    } else {
        seq![fresh(rows, alias, key, now)]
    }
}

/// What the creation of a record answers.
pub open spec fn create_answer(
    rows: Seq<NodeView>,
    alias: Seq<char>,
    key: Seq<char>,
    now: u64,
) -> Result<NodeView, NodeErrorView> {
    if alias.len() == 0 || key.len() == 0 {
        Err(NodeErrorView::FieldsRequired)
    } else if some_row(rows, Pick::OwnLive, alias, key) {
        Ok(rows[first(rows, Pick::OwnLive, alias, key)])
    } else {
        Ok(fresh(rows, alias, key, now))
    }
}

/// The index of the record an approval means: the live record of the key,
/// or, without a key, the only pending one.
pub open spec fn approve_target(
    rows: Seq<NodeView>,
    alias: Seq<char>,
    key: Option<Seq<char>>,
) -> Result<int, NodeErrorView> {
    match key {
        Some(key) => if some_row(rows, Pick::OwnLive, alias, key) {
            Ok(first(rows, Pick::OwnLive, alias, key))
        } else {
            Err(NodeErrorView::NoSuchRecord(alias))
        },
        None => {
            let at = first(rows, Pick::Pending, alias, Seq::empty());
            if some_row(rows, Pick::Pending, alias, Seq::empty()) && !some_row(
                rows.skip(at + 1),
                Pick::Pending,
                alias,
                Seq::empty(),
            ) {
                Ok(at)
            } else {
                Err(NodeErrorView::NoUniquePending(alias))
            }
        },
    }
}

/// The record loses its approval when another record of the alias gets it.
pub open spec fn demoted(n: NodeView, alias: Seq<char>, target: u64) -> bool {
    n.alias == alias && n.status == "approved"@ && n.id != target
}

/// The demotions among the first `n` rows.
pub open spec fn demotions(
    rows: Seq<NodeView>,
    alias: Seq<char>,
    target: u64,
    n: nat,
) -> Seq<NodeView>
    decreases n,
{
    if n == 0 {
        Seq::empty()
    } else {
        let before = demotions(rows, alias, target, (n - 1) as nat);
        if demoted(rows[n - 1], alias, target) {
            before.push(with_status(rows[n - 1], "revoked"@))
        } else {
            before
        }
    }
}

/// What an approval of the row at `at` writes: the demotions, then the
/// approval.
pub open spec fn approve_puts(rows: Seq<NodeView>, alias: Seq<char>, at: int) -> Seq<NodeView> {
    demotions(rows, alias, rows[at].id, rows.len()).push(with_status(rows[at], "approved"@))
}

/// The record falls to a revocation.
pub open spec fn revocable(n: NodeView, alias: Seq<char>, key: Option<Seq<char>>) -> bool {
    n.alias == alias && n.status != "revoked"@ && (key matches Some(k) ==> n.public_key == k)
}

/// The revocations among the first `n` rows.
pub open spec fn revocations(
    rows: Seq<NodeView>,
    alias: Seq<char>,
    key: Option<Seq<char>>,
    n: nat,
) -> Seq<NodeView>
    decreases n,
{
    if n == 0 {
        Seq::empty()
    } else {
        let before = revocations(rows, alias, key, (n - 1) as nat);
        if revocable(rows[n - 1], alias, key) {
            before.push(with_status(rows[n - 1], "revoked"@))
        } else {
            before
        }
    }
}

pub open spec fn row_result(r: Result<Node, NodeError>) -> Result<NodeView, NodeErrorView> {
    match r {
        Ok(row) => Ok(row@),
        Err(error) => Err(error@),
    }
}

pub open spec fn optional_key(key: Option<&str>) -> Option<Seq<char>> {
    match key {
        Some(key) => Some(key@),
        None => None,
    }
}

pub proof fn lemma_status_words()
    ensures
        "pending"@ != "approved"@,
        "pending"@ != "revoked"@,
        "approved"@ != "revoked"@,
{
    reveal_strlit("pending");
    reveal_strlit("approved");
    reveal_strlit("revoked");
    assert("pending"@.len() != "approved"@.len());
    assert("revoked"@.len() != "approved"@.len());
    assert("pending"@[0] != "revoked"@[0]);
}

pub proof fn lemma_first(rows: Seq<NodeView>, pick: Pick, alias: Seq<char>, key: Seq<char>)
    ensures
        0 <= first(rows, pick, alias, key) <= rows.len(),
        forall|j: int|
            0 <= j < first(rows, pick, alias, key) ==> !#[trigger] picks(rows[j], pick, alias, key),
        some_row(rows, pick, alias, key) <==> first(rows, pick, alias, key) < rows.len(),
        some_row(rows, pick, alias, key) ==> picks(
            rows[first(rows, pick, alias, key)],
            pick,
            alias,
            key,
        ),
    decreases rows.len(),
{
    if rows.len() == 0 {
    } else if picks(rows[0], pick, alias, key) {
    } else {
        let rest = rows.skip(1);
        lemma_first(rest, pick, alias, key);
        let at = first(rows, pick, alias, key);
        assert forall|j: int| 0 <= j < at implies !#[trigger] picks(rows[j], pick, alias, key) by {
            if j > 0 {
                assert(rest[j - 1] == rows[j]);
                assert(!picks(rest[j - 1], pick, alias, key));
            }
        }
        if at < rows.len() {
            assert(rest[at - 1] == rows[at]);
        }
    }
}

pub proof fn lemma_first_is(
    rows: Seq<NodeView>,
    pick: Pick,
    alias: Seq<char>,
    key: Seq<char>,
    at: int,
)
    requires
        0 <= at <= rows.len(),
        forall|j: int| 0 <= j < at ==> !#[trigger] picks(rows[j], pick, alias, key),
        at < rows.len() ==> picks(rows[at], pick, alias, key),
    ensures
        first(rows, pick, alias, key) == at,
        some_row(rows, pick, alias, key) <==> at < rows.len(),
{
    lemma_first(rows, pick, alias, key);
    let f = first(rows, pick, alias, key);
    if f < at {
        assert(!picks(rows[f], pick, alias, key));
    } else if at < f {
        assert(!picks(rows[at], pick, alias, key));
    }
}

/// What the demotions among the first `n` rows make of the table.
pub proof fn lemma_demotions(rows: Seq<NodeView>, alias: Seq<char>, target: u64, n: nat)
    requires
        ordered(rows),
        n <= rows.len(),
    ensures
        ({
            let after = put_all(rows, demotions(rows, alias, target, n));
            &&& ordered(after)
            &&& after.len() == rows.len()
            &&& forall|j: int|
                0 <= j < rows.len() ==> #[trigger] after[j] == if j < n && demoted(
                    rows[j],
                    alias,
                    target,
                ) {
                    with_status(rows[j], "revoked"@)
                } else {
                    rows[j]
                }
        }),
    decreases n,
{
    if n > 0 {
        let m = (n - 1) as nat;
        lemma_demotions(rows, alias, target, m);
        let before = put_all(rows, demotions(rows, alias, target, m));
        if demoted(rows[m as int], alias, target) {
            let row = with_status(rows[m as int], "revoked"@);
            assert(before[m as int] == rows[m as int]);
            lemma_put_replaces(before, row, m as int);
            assert(demotions(rows, alias, target, n).drop_last() =~= demotions(
                rows,
                alias,
                target,
                m,
            ));
        }
    }
}

/// What the revocations among the first `n` rows make of the table.
pub proof fn lemma_revocations(
    rows: Seq<NodeView>,
    alias: Seq<char>,
    key: Option<Seq<char>>,
    n: nat,
)
    requires
        ordered(rows),
        n <= rows.len(),
    ensures
        ({
            let after = put_all(rows, revocations(rows, alias, key, n));
            &&& ordered(after)
            &&& after.len() == rows.len()
            &&& forall|j: int|
                0 <= j < rows.len() ==> #[trigger] after[j] == if j < n && revocable(
                    rows[j],
                    alias,
                    key,
                ) {
                    with_status(rows[j], "revoked"@)
                } else {
                    rows[j]
                }
        }),
    decreases n,
{
    if n > 0 {
        let m = (n - 1) as nat;
        lemma_revocations(rows, alias, key, m);
        let before = put_all(rows, revocations(rows, alias, key, m));
        if revocable(rows[m as int], alias, key) {
            let row = with_status(rows[m as int], "revoked"@);
            assert(before[m as int] == rows[m as int]);
            lemma_put_replaces(before, row, m as int);
            assert(revocations(rows, alias, key, n).drop_last() =~= revocations(
                rows,
                alias,
                key,
                m,
            ));
        }
    }
}

/// The node registry.
pub struct NodeStore {
    table: Table<Node>,
}

impl View for NodeStore {
    type V = TableView<NodeView>;

    closed spec fn view(&self) -> TableView<NodeView> {
        self.table@
    }
}

impl NodeStore {
    /// The rows stand in the order of their ids.
    pub open spec fn wf(&self) -> bool {
        ordered(self@.rows)
    }

    /// There is an id left for one more record.
    pub open spec fn has_room(&self) -> bool {
        watermark(self@.rows) < u64::MAX
    }

    /// The registry over the records of the durable side.
    pub fn new(rows: Vec<Node>) -> (store: Self)
        ensures
            store.wf(),
            store@.rows == put_all(Seq::empty(), views(rows@)),
            store@.writes == Seq::<NodeView>::empty(),
    {
        NodeStore { table: Table::load(rows) }
    }

    /// The first record at or after `from` that `pick` means.
    fn find(&self, pick: Pick, alias: &str, key: &str, from: usize) -> (at: Option<usize>)
        requires
            from <= self@.rows.len(),
        ensures
            match at {
                Some(i) => some_row(self@.rows.skip(from as int), pick, alias@, key@) && i == from
                    + first(self@.rows.skip(from as int), pick, alias@, key@) && i
                    < self@.rows.len() && i < usize::MAX,
                None => !some_row(self@.rows.skip(from as int), pick, alias@, key@),
            },
    {
        let ghost rows = self@.rows;
        let ghost rest = rows.skip(from as int);
        let mut i: usize = from;
        while i < self.table.len()
            invariant
                from <= i <= rows.len(),
                rest == rows.skip(from as int),
                self@.rows == rows,
                forall|j: int| 0 <= j < i - from ==> !#[trigger] picks(rest[j], pick, alias@, key@),
            decreases rows.len() - i,
        {
            let row = self.table.row(i);
            assert(rest[i - from] == row@);
            if same(row.alias.as_str(), alias) {
                let own = same(row.public_key.as_str(), key);
                let hit = match pick {
                    Pick::Own => own,
                    Pick::OwnApproved => own && same(row.status.as_str(), "approved"),
                    Pick::OwnPending => own && same(row.status.as_str(), "pending"),
                    Pick::OwnLive => own && !same(row.status.as_str(), "revoked"),
                    Pick::OtherApproved => !own && same(row.status.as_str(), "approved"),
                    Pick::Pending => same(row.status.as_str(), "pending"),
                };
                assert(hit == picks(rest[i - from], pick, alias@, key@));
                if hit {
                    proof {
                        lemma_first_is(rest, pick, alias@, key@, i - from);
                    }
                    return Some(i);
                }
            }
            i = i + 1;
        }
        proof {
            lemma_first_is(rest, pick, alias@, key@, rest.len() as int);
        }
        None
    }

    /// Whether there is a record that `pick` means.
    fn any(&self, pick: Pick, alias: &str, key: &str) -> (r: bool)
        ensures
            r == some_row(self@.rows, pick, alias@, key@),
    {
        assert(self@.rows.skip(0) =~= self@.rows);
        self.find(pick, alias, key, 0).is_some()
    }

    fn row(&self, at: usize) -> (row: Node)
        requires
            at < self@.rows.len(),
        ensures
            row@ == self@.rows[at as int],
    {
        self.table.row(at).clone()
    }

    /// Creates a pending record at a given time.
    pub fn create_at(&mut self, alias: &str, public_key: &str, now: u64) -> (r: Result<
        Node,
        NodeError,
    >)
        requires
            old(self).wf(),
            creates_row(old(self)@.rows, alias@, public_key@) ==> old(self).has_room(),
        ensures
            final(self).wf(),
            row_result(r) == create_answer(old(self)@.rows, alias@, public_key@, now),
            final(self)@ == written(
                old(self)@,
                create_puts(old(self)@.rows, alias@, public_key@, now),
            ),
    {
        let ghost before = self@;
        proof {
            lemma_written_none(before);
            assert(before.rows.skip(0) =~= before.rows);
        }
        if alias.is_empty() || public_key.is_empty() {
            return Err(NodeError::FieldsRequired);
        }
        if let Some(at) = self.find(Pick::OwnLive, alias, public_key, 0) {
            return Ok(self.row(at));
        }
        let mark: u64 = self.table.last_id();
        let row = Node {
            id: mark + 1,
            alias: alias.to_string(),
            public_key: public_key.to_string(),
            status: "pending".to_string(),
            created_at: now,
            global: 0,
        };
        assert(row@ == fresh(before.rows, alias@, public_key@, now));
        self.table.put(row.clone());
        Ok(row)
    }

    /// Creates a pending record at the time the clock shows. A record of the alias and the key that
    /// is already live is returned as it is.
    pub fn create(&mut self, alias: &str, public_key: &str) -> (r: Result<Node, NodeError>)
        requires
            old(self).wf(),
            creates_row(old(self)@.rows, alias@, public_key@) ==> old(self).has_room(),
        ensures
            final(self).wf(),
            exists|time: std::time::SystemTime|
                row_result(r) == create_answer(
                    old(self)@.rows,
                    alias@,
                    public_key@,
                    stamp(#[trigger] epoch_nanos(time)),
                ) && final(self)@ == written(
                    old(self)@,
                    create_puts(old(self)@.rows, alias@, public_key@, stamp(epoch_nanos(time))),
                ),
    {
        let now: u64 = now_ms();
        self.create_at(alias, public_key, now)
    }

    /// The verdict on a claim at a given time.
    pub fn verdict_at(&mut self, alias: &str, public_key: &str, now: u64) -> (v: Verdict)
        requires
            old(self).wf(),
            claims_row(old(self)@.rows, alias@, public_key@) ==> old(self).has_room(),
        ensures
            final(self).wf(),
            v == verdict_of(old(self)@.rows, alias@, public_key@),
            final(self)@ == written(
                old(self)@,
                verdict_puts(old(self)@.rows, alias@, public_key@, now),
            ),
    {
        let ghost before = self@;
        proof {
            lemma_written_none(before);
        }
        assert(before.rows.skip(0) =~= before.rows);
        if self.any(Pick::OwnApproved, alias, public_key) {
            return Verdict::Registered;
        }
        let taken = self.any(Pick::OtherApproved, alias, public_key);
        match self.find(Pick::Own, alias, public_key, 0) {
            Some(at) => {
                if !taken && !self.any(Pick::OwnPending, alias, public_key) {
                    let mut revived = self.row(at);
                    revived.status = "pending".to_string();
                    self.table.put(revived);
                }
            },
            None => {
                let _ = self.create_at(alias, public_key, now);
            },
        }
        if taken {
            Verdict::Conflict
        } else {
            Verdict::Pending
        }
    }

    /// The verdict on a claim at the time the clock shows. An unknown claim becomes a pending
    /// record, so that the operator sees the attempt: the approval queue is
    /// this table.
    pub fn verdict(&mut self, alias: &str, public_key: &str) -> (v: Verdict)
        requires
            old(self).wf(),
            claims_row(old(self)@.rows, alias@, public_key@) ==> old(self).has_room(),
        ensures
            final(self).wf(),
            v == verdict_of(old(self)@.rows, alias@, public_key@),
            exists|time: std::time::SystemTime|
                final(self)@ == written(
                    old(self)@,
                    verdict_puts(
                        old(self)@.rows,
                        alias@,
                        public_key@,
                        stamp(#[trigger] epoch_nanos(time)),
                    ),
                ),
    {
        let now: u64 = now_ms();
        self.verdict_at(alias, public_key, now)
    }

    /// Approves a key for an alias: the live record of the given key, or
    /// without a key the only pending record. An ambiguous queue is refused,
    /// never guessed. A key that was approved before falls to `revoked`.
    pub fn approve(&mut self, alias: &str, public_key: Option<&str>) -> (r: Result<Node, NodeError>)
        requires
            old(self).wf(),
        ensures
            final(self).wf(),
            match approve_target(old(self)@.rows, alias@, optional_key(public_key)) {
                Ok(at) => row_result(r) == Ok::<NodeView, NodeErrorView>(
                    with_status(old(self)@.rows[at], "approved"@),
                ) && final(self)@ == written(
                    old(self)@,
                    approve_puts(old(self)@.rows, alias@, at),
                ),
                Err(error) => row_result(r) == Err::<NodeView, NodeErrorView>(error)
                    && final(self)@ == old(self)@,
            },
    {
        let ghost before = self@;
        assert(before.rows.skip(0) =~= before.rows);
        let at: usize = match public_key {
            Some(key) => match self.find(Pick::OwnLive, alias, key, 0) {
                Some(at) => at,
                None => {
                    return Err(NodeError::NoSuchRecord(alias.to_string()));
                },
            },
            None => {
                proof {
                    reveal_strlit("");
                    assert(""@ =~= Seq::<char>::empty());
                }
                match self.find(Pick::Pending, alias, "", 0) {
                    Some(at) => {
                        if self.find(Pick::Pending, alias, "", at + 1).is_some() {
                            return Err(NodeError::NoUniquePending(alias.to_string()));
                        }
                        at
                    },
                    None => {
                        return Err(NodeError::NoUniquePending(alias.to_string()));
                    },
                }
            },
        };
        let mut target = self.row(at);
        let id: u64 = target.id;
        assert(demotions(before.rows, alias@, id, 0) =~= Seq::<NodeView>::empty());
        proof {
            lemma_written_none(before);
        }
        let mut i: usize = 0;
        while i < self.table.len()
            invariant
                i <= before.rows.len(),
                ordered(before.rows),
                self.wf(),
                self@.rows.len() == before.rows.len(),
                self@ == written(before, demotions(before.rows, alias@, id, i as nat)),
            decreases before.rows.len() - i,
        {
            proof {
                lemma_demotions(before.rows, alias@, id, i as nat);
                lemma_demotions(before.rows, alias@, id, (i + 1) as nat);
            }
            let row = self.row(i);
            assert(row@ == before.rows[i as int]);
            if same(row.alias.as_str(), alias) && same(row.status.as_str(), "approved") && row.id
                != id {
                let mut demoted = row;
                demoted.status = "revoked".to_string();
                let ghost shown = demoted@;
                self.table.put(demoted);
                proof {
                    lemma_written_push(
                        before,
                        demotions(before.rows, alias@, id, i as nat),
                        shown,
                    );
                }
            }
            i = i + 1;
        }
        target.status = "approved".to_string();
        proof {
            lemma_written_push(before, demotions(before.rows, alias@, id, i as nat), target@);
        }
        self.table.put(target.clone());
        Ok(target)
    }

    /// Revokes live records of an alias: that of the given key, or without a
    /// key every one. The rows survive as `revoked`.
    pub fn revoke(&mut self, alias: &str, public_key: Option<&str>) -> (r: Result<
        usize,
        NodeError,
    >)
        requires
            old(self).wf(),
        ensures
            final(self).wf(),
            final(self)@ == written(
                old(self)@,
                revocations(
                    old(self)@.rows,
                    alias@,
                    optional_key(public_key),
                    old(self)@.rows.len(),
                ),
            ),
            ({
                let n = revocations(
                    old(self)@.rows,
                    alias@,
                    optional_key(public_key),
                    old(self)@.rows.len(),
                ).len();
                match r {
                    Ok(count) => count == n && n > 0,
                    Err(error) => n == 0 && error@ == NodeErrorView::NoLiveRecord(alias@),
                }
            }),
    {
        let ghost before = self@;
        let ghost key = optional_key(public_key);
        assert(revocations(before.rows, alias@, key, 0) =~= Seq::<NodeView>::empty());
        proof {
            lemma_written_none(before);
        }
        let mut n: usize = 0;
        let mut i: usize = 0;
        while i < self.table.len()
            invariant
                i <= before.rows.len(),
                n <= i,
                key == optional_key(public_key),
                ordered(before.rows),
                self.wf(),
                self@.rows.len() == before.rows.len(),
                self@ == written(before, revocations(before.rows, alias@, key, i as nat)),
                n == revocations(before.rows, alias@, key, i as nat).len(),
            decreases before.rows.len() - i,
        {
            proof {
                lemma_revocations(before.rows, alias@, key, i as nat);
                lemma_revocations(before.rows, alias@, key, (i + 1) as nat);
            }
            let row = self.row(i);
            assert(row@ == before.rows[i as int]);
            let hit = match public_key {
                Some(k) => same(row.public_key.as_str(), k),
                None => true,
            };
            if same(row.alias.as_str(), alias) && hit && !same(row.status.as_str(), "revoked") {
                let mut dead = row;
                dead.status = "revoked".to_string();
                let ghost shown = dead@;
                self.table.put(dead);
                proof {
                    lemma_written_push(
                        before,
                        revocations(before.rows, alias@, key, i as nat),
                        shown,
                    );
                }
                n = n + 1;
            }
            i = i + 1;
        }
        if n == 0 {
            return Err(NodeError::NoLiveRecord(alias.to_string()));
        }
        Ok(n)
    }

    /// Every record, newest id last.
    pub fn list(&self) -> (rows: Vec<Node>)
        ensures
            views(rows@) == self@.rows,
    {
        self.table.list()
    }

    /// Whether there is an id left for one more record.
    pub fn can_grow(&self) -> (r: bool)
        ensures
            r == self.has_room(),
    {
        self.table.last_id() < u64::MAX
    }

    /// Takes the journal: the rows written since it was last taken, in the
    /// order of their writing.
    pub fn take_writes(&mut self) -> (writes: Vec<Node>)
        ensures
            views(writes@) == old(self)@.writes,
            final(self)@.rows == old(self)@.rows,
            final(self)@.writes == Seq::<NodeView>::empty(),
    {
        self.table.take_writes()
    }
}

}
