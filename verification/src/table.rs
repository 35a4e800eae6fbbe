//! A table of records under ascending ids.
//!
//! A table holds its rows in memory, in the order of their ids, and keeps a
//! journal of the rows that were written to it, for the durable side to
//! replay.

use vstd::prelude::*;

verus! {

/// What is stored under an id.
pub trait Keyed: Sized {
    spec fn key_of(self) -> u64;
}

/// A record of a table, with the id it is stored under.
pub trait Record: View + Sized where Self::V: Keyed {
    fn id_of(&self) -> (id: u64)
        ensures
            id == self@.key_of(),
    ;

    fn copy_of(&self) -> (copy: Self)
        ensures
            copy@ == self@,
    ;
}

/// Ids rise from row to row.
pub open spec fn ordered<V: Keyed>(rows: Seq<V>) -> bool {
    forall|i: int, j: int|
        0 <= i < j < rows.len() ==> (#[trigger] rows[i]).key_of() < (#[trigger] rows[j]).key_of()
}

/// The highest id in the table, zero for none.
pub open spec fn watermark<V: Keyed>(rows: Seq<V>) -> u64 {
    if rows.len() == 0 {
        0
    } else {
        rows.last().key_of()
    }
}

/// The number of rows before the place of an id.
pub open spec fn place<V: Keyed>(rows: Seq<V>, id: u64) -> int
    decreases rows.len(),
{
    if rows.len() == 0 || id <= rows[0].key_of() {
        0
    } else {
        1 + place(rows.skip(1), id)
    }
}

/// The row under an id.
pub open spec fn row_under<V: Keyed>(rows: Seq<V>, id: u64) -> Option<V> {
    let at = place(rows, id);
    if at < rows.len() && rows[at].key_of() == id {
        Some(rows[at])
    } else {
        None
    }
}

/// The table after a row was written under its id.
pub open spec fn put<V: Keyed>(rows: Seq<V>, row: V) -> Seq<V> {
    let at = place(rows, row.key_of());
    if at < rows.len() && rows[at].key_of() == row.key_of() {
        rows.update(at, row)
    } else {
        rows.insert(at, row)
    }
}

/// The table after rows were written, one after the other.
pub open spec fn put_all<V: Keyed>(rows: Seq<V>, puts: Seq<V>) -> Seq<V>
    decreases puts.len(),
{
    if puts.len() == 0 {
        rows
    } else {
        put(put_all(rows, puts.drop_last()), puts.last())
    }
}

/// A table by its rows, and by the rows that were written to it since its
/// journal was last taken.
pub struct TableView<V> {
    pub rows: Seq<V>,
    pub writes: Seq<V>,
}

/// The table after the given writes.
pub open spec fn written<V: Keyed>(s: TableView<V>, puts: Seq<V>) -> TableView<V> {
    TableView { rows: put_all(s.rows, puts), writes: s.writes + puts }
}

/// A table after a step is the one before it and the rows that the step added
/// to the journal, written one after the other.
pub open spec fn journaled<V: Keyed>(before: TableView<V>, after: TableView<V>) -> bool {
    let n = before.writes.len() as int;
    &&& n <= after.writes.len()
    &&& after.writes.take(n) == before.writes
    &&& after.rows == put_all(before.rows, after.writes.skip(n))
}

pub proof fn lemma_journaled<V: Keyed>(s: TableView<V>, puts: Seq<V>)
    ensures
        journaled(s, written(s, puts)),
        journaled(s, s),
{
    let n = s.writes.len() as int;
    assert((s.writes + puts).take(n) =~= s.writes);
    assert((s.writes + puts).skip(n) =~= puts);
    assert(s.writes.take(n) =~= s.writes);
    assert(s.writes.skip(n) =~= Seq::empty());
}

/// Rows by what they hold.
pub open spec fn views<R: View>(rows: Seq<R>) -> Seq<R::V> {
    rows.map_values(|r: R| r@)
}

/// The place of an id, by what stands before and after it.
pub proof fn lemma_place<V: Keyed>(rows: Seq<V>, id: u64, at: int)
    requires
        0 <= at <= rows.len(),
        forall|j: int| 0 <= j < at ==> (#[trigger] rows[j]).key_of() < id,
        at < rows.len() ==> id <= rows[at].key_of(),
    ensures
        place(rows, id) == at,
    decreases rows.len(),
{
    if rows.len() > 0 && at > 0 {
        assert(rows[0].key_of() < id);
        let rest = rows.skip(1);
        assert forall|j: int| 0 <= j < at - 1 implies (#[trigger] rest[j]).key_of() < id by {
            assert(rest[j] == rows[j + 1]);
        }
        lemma_place(rest, id, at - 1);
    }
}

/// Writing a row under the id of the row at `at` replaces that row.
pub proof fn lemma_put_replaces<V: Keyed>(rows: Seq<V>, row: V, at: int)
    requires
        ordered(rows),
        0 <= at < rows.len(),
        rows[at].key_of() == row.key_of(),
    ensures
        put(rows, row) == rows.update(at, row),
        ordered(put(rows, row)),
{
    lemma_place(rows, row.key_of(), at);
}

/// No id of a table is above its watermark.
pub proof fn lemma_watermark<V: Keyed>(rows: Seq<V>, i: int)
    requires
        ordered(rows),
        0 <= i < rows.len(),
    ensures
        rows[i].key_of() <= watermark(rows),
{
    if i < rows.len() - 1 {
        assert(rows[i].key_of() < rows[rows.len() - 1].key_of());
    }
}

/// Writing a row under an id above the watermark appends it.
pub proof fn lemma_put_appends<V: Keyed>(rows: Seq<V>, row: V)
    requires
        ordered(rows),
        watermark(rows) < row.key_of(),
    ensures
        put(rows, row) == rows.push(row),
        ordered(put(rows, row)),
        watermark(put(rows, row)) == row.key_of(),
        row_under(rows, row.key_of()) is None,
{
    assert forall|j: int| 0 <= j < rows.len() implies (#[trigger] rows[j]).key_of()
        < row.key_of() by {
        lemma_watermark(rows, j);
    }
    lemma_place(rows, row.key_of(), rows.len() as int);
    assert(rows.insert(rows.len() as int, row) =~= rows.push(row));
}

pub proof fn lemma_put_one<V: Keyed>(rows: Seq<V>, row: V)
    ensures
        put_all(rows, seq![row]) == put(rows, row),
{
    assert(seq![row].drop_last() =~= Seq::<V>::empty());
    reveal_with_fuel(put_all, 2);
}

/// Writes add up.
pub proof fn lemma_written_push<V: Keyed>(s: TableView<V>, puts: Seq<V>, row: V)
    ensures
        written(written(s, puts), seq![row]) == written(s, puts.push(row)),
{
    lemma_put_one(put_all(s.rows, puts), row);
    assert(puts.push(row).drop_last() =~= puts);
    assert(s.writes + puts + seq![row] =~= s.writes + puts.push(row));
}

pub proof fn lemma_written_none<V: Keyed>(s: TableView<V>)
    ensures
        written(s, Seq::empty()) == s,
{
    assert(s.writes + Seq::<V>::empty() =~= s.writes);
}

/// The table holds what was last written under an id, and whatever it held
/// under any other.
pub proof fn written_row_is_read_back<V: Keyed>(rows: Seq<V>, row: V, id: u64)
    requires
        ordered(rows),
    ensures
        ordered(put(rows, row)),
        row_under(put(rows, row), id) == if id == row.key_of() {
            Some(row)
        } else {
            row_under(rows, id)
        },
{
    let at = lemma_place_of(rows, row.key_of());
    let there = lemma_place_of(rows, id);
    let after = put(rows, row);
    if at < rows.len() && rows[at].key_of() == row.key_of() {
        lemma_put_replaces(rows, row, at);
        lemma_place(after, id, there);
    } else {
        lemma_insert_ordered(rows, row, at);
        if id <= row.key_of() {
            lemma_place(after, id, there);
        } else {
            lemma_place(after, id, there + 1);
        }
    }
}

/// Writing a row that is there already changes nothing.
pub proof fn lemma_put_again<V: Keyed>(rows: Seq<V>, row: V)
    requires
        ordered(rows),
        row_under(rows, row.key_of()) == Some(row),
    ensures
        put(rows, row) == rows,
{
    let at = lemma_place_of(rows, row.key_of());
    assert(rows.update(at, row) =~= rows);
}

/// No row is under an id that none has.
pub proof fn lemma_no_row<V: Keyed>(rows: Seq<V>, id: u64)
    requires
        ordered(rows),
        forall|j: int| 0 <= j < rows.len() ==> (#[trigger] rows[j]).key_of() != id,
    ensures
        row_under(rows, id) is None,
{
    let at = lemma_place_of(rows, id);
}

/// The row under an id is the one that has it.
pub proof fn row_under_has_the_id<V: Keyed>(rows: Seq<V>, id: u64, row: V)
    requires
        ordered(rows),
    ensures
        row_under(rows, id) == Some(row) <==> exists|j: int|
            0 <= j < rows.len() && #[trigger] rows[j] == row && row.key_of() == id,
{
    let at = lemma_place_of(rows, id);
    if exists|j: int| 0 <= j < rows.len() && #[trigger] rows[j] == row && row.key_of() == id {
        let j = choose|j: int| 0 <= j < rows.len() && #[trigger] rows[j] == row && row.key_of()
            == id;
        lemma_place(rows, id, j);
    }
    if row_under(rows, id) == Some(row) {
        assert(rows[at] == row);
    }
}

/// Where the place of an id is.
proof fn lemma_place_of<V: Keyed>(rows: Seq<V>, id: u64) -> (at: int)
    requires
        ordered(rows),
    ensures
        at == place(rows, id),
        0 <= at <= rows.len(),
        forall|j: int| 0 <= j < at ==> (#[trigger] rows[j]).key_of() < id,
        forall|j: int| at <= j < rows.len() ==> id <= (#[trigger] rows[j]).key_of(),
    decreases rows.len(),
{
    if rows.len() == 0 || id <= rows[0].key_of() {
        assert forall|j: int| 0 <= j < rows.len() implies id <= (#[trigger] rows[j]).key_of() by {
            if j > 0 {
                assert(rows[0].key_of() < rows[j].key_of());
            }
        }
        0
    } else {
        let rest = rows.skip(1);
        assert forall|i: int, j: int| 0 <= i < j < rest.len() implies (
        #[trigger] rest[i]).key_of() < (#[trigger] rest[j]).key_of() by {
            assert(rest[i] == rows[i + 1] && rest[j] == rows[j + 1]);
        }
        let below = lemma_place_of(rest, id);
        assert forall|j: int| 0 <= j < below + 1 implies (#[trigger] rows[j]).key_of() < id by {
            if j > 0 {
                assert(rest[j - 1] == rows[j]);
            }
        }
        assert forall|j: int| below + 1 <= j < rows.len() implies id <= (
        #[trigger] rows[j]).key_of() by {
            assert(rest[j - 1] == rows[j]);
        }
        below + 1
    }
}

/// A row inserted at the place of its new id keeps the table ordered.
proof fn lemma_insert_ordered<V: Keyed>(rows: Seq<V>, row: V, at: int)
    requires
        ordered(rows),
        0 <= at <= rows.len(),
        forall|j: int| 0 <= j < at ==> (#[trigger] rows[j]).key_of() < row.key_of(),
        at < rows.len() ==> row.key_of() < rows[at].key_of(),
    ensures
        ordered(rows.insert(at, row)),
{
    let after = rows.insert(at, row);
    assert forall|i: int, j: int| 0 <= i < j < after.len() implies (#[trigger] after[i]).key_of()
        < (#[trigger] after[j]).key_of() by {
        if i < at && j > at {
            assert(after[i] == rows[i] && after[j] == rows[j - 1]);
        } else if i == at {
            assert(after[j] == rows[j - 1]);
            if j - 1 > at {
                assert(rows[at].key_of() < rows[j - 1].key_of());
            }
        } else if i > at {
            assert(after[i] == rows[i - 1] && after[j] == rows[j - 1]);
        }
    }
}

/// The journal is enough to rebuild a table: where replaying it over what is
/// stored gives the table, it still does after further writes.
pub proof fn journal_replays<V: Keyed>(stored: Seq<V>, s: TableView<V>, puts: Seq<V>)
    requires
        put_all(stored, s.writes) == s.rows,
    ensures
        put_all(stored, written(s, puts).writes) == written(s, puts).rows,
    decreases puts.len(),
{
    if puts.len() == 0 {
        assert(s.writes + puts =~= s.writes);
    } else {
        journal_replays(stored, s, puts.drop_last());
        assert((s.writes + puts).drop_last() =~= s.writes + puts.drop_last());
        assert((s.writes + puts).last() == puts.last());
    }
}

/// Rows that stand in the order of their ids load as they are.
pub proof fn ordered_rows_load_as_they_are<V: Keyed>(rows: Seq<V>)
    requires
        ordered(rows),
    ensures
        put_all(Seq::empty(), rows) == rows,
    decreases rows.len(),
{
    if rows.len() == 0 {
        assert(rows =~= Seq::empty());
    } else {
        let before = rows.drop_last();
        let row = rows.last();
        assert forall|i: int, j: int| 0 <= i < j < before.len() implies (
        #[trigger] before[i]).key_of() < (#[trigger] before[j]).key_of() by {
            assert(before[i] == rows[i] && before[j] == rows[j]);
        }
        ordered_rows_load_as_they_are(before);
        assert forall|j: int| 0 <= j < before.len() implies (#[trigger] before[j]).key_of()
            < row.key_of() by {
            assert(before[j] == rows[j]);
        }
        lemma_place(before, row.key_of(), before.len() as int);
        assert(before.insert(before.len() as int, row) =~= rows);
    }
}

/// A table of records.
pub struct Table<R> {
    rows: Vec<R>,
    writes: Vec<R>,
}

impl<R: View> View for Table<R> {
    type V = TableView<R::V>;

    closed spec fn view(&self) -> TableView<R::V> {
        TableView { rows: views(self.rows@), writes: views(self.writes@) }
    }
}

impl<R: Record> Table<R> where R::V: Keyed {
    /// The rows stand in the order of their ids.
    pub open spec fn wf(&self) -> bool {
        ordered(self@.rows)
    }

    /// There is an id left for one more record.
    pub open spec fn has_room(&self) -> bool {
        watermark(self@.rows) < u64::MAX
    }

    /// The table without rows.
    pub fn new() -> (table: Self)
        ensures
            table.wf(),
            table@.rows == Seq::<R::V>::empty(),
            table@.writes == Seq::<R::V>::empty(),
    {
        let table = Table { rows: Vec::new(), writes: Vec::new() };
        assert(table@.rows =~= Seq::<R::V>::empty());
        assert(table@.writes =~= Seq::<R::V>::empty());
        table
    }

    /// The table over rows read back from the durable side, each under its
    /// id, a later row in place of an earlier one.
    pub fn load(rows: Vec<R>) -> (table: Self)
        ensures
            table.wf(),
            table@.rows == put_all(Seq::empty(), views(rows@)),
            table@.writes == Seq::<R::V>::empty(),
    {
        let mut table = Table::new();
        let ghost all = views(rows@);
        let mut i: usize = 0;
        assert(all.take(0) =~= Seq::<R::V>::empty());
        while i < rows.len()
            invariant
                i <= rows@.len(),
                all == views(rows@),
                table.wf(),
                table@.rows == put_all(Seq::empty(), all.take(i as int)),
            decreases rows.len() - i,
        {
            let ghost before = table@;
            table.put(rows[i].copy_of());
            proof {
                assert(all.take(i + 1).drop_last() =~= all.take(i as int));
                assert(all.take(i + 1).last() == rows@[i as int]@);
                lemma_put_one(before.rows, rows@[i as int]@);
            }
            i = i + 1;
        }
        assert(all.take(i as int) =~= all);
        table.writes = Vec::new();
        assert(views(table.writes@) =~= Seq::<R::V>::empty());
        table
    }

    /// Writes one row under its id.
    pub fn put(&mut self, row: R)
        requires
            old(self).wf(),
        ensures
            final(self).wf(),
            final(self)@ == written(old(self)@, seq![row@]),
    {
        let ghost before = self@;
        let id: u64 = row.id_of();
        let at: usize = self.locate(id);
        proof {
            lemma_put_one(before.rows, row@);
        }
        let copy = row.copy_of();
        if at < self.rows.len() && self.rows[at].id_of() == id {
            self.rows.set(at, row);
            proof {
                lemma_put_replaces(before.rows, row@, at as int);
                assert(views(self.rows@) =~= before.rows.update(at as int, row@));
            }
        } else {
            self.rows.insert(at, row);
            proof {
                assert(views(self.rows@) =~= before.rows.insert(at as int, row@));
                lemma_insert_ordered(before.rows, row@, at as int);
            }
        }
        self.writes.push(copy);
        assert(views(self.writes@) =~= before.writes + seq![row@]);
    }

    /// The place of an id.
    fn locate(&self, id: u64) -> (at: usize)
        requires
            self.wf(),
        ensures
            at == place(self@.rows, id),
            at <= self@.rows.len(),
            self.rows@.len() == self@.rows.len(),
            forall|j: int| 0 <= j < at ==> (#[trigger] self@.rows[j]).key_of() < id,
            at < self@.rows.len() ==> id <= self@.rows[at as int].key_of(),
    {
        let mut at: usize = 0;
        while at < self.rows.len() && self.rows[at].id_of() < id
            invariant
                at <= self.rows@.len(),
                forall|j: int| 0 <= j < at ==> (#[trigger] self@.rows[j]).key_of() < id,
            decreases self.rows.len() - at,
        {
            assert(self@.rows[at as int] == self.rows@[at as int]@);
            at = at + 1;
        }
        proof {
            if at < self.rows@.len() {
                assert(self@.rows[at as int] == self.rows@[at as int]@);
            }
            lemma_place(self@.rows, id, at as int);
        }
        at
    }

    /// The record under an id.
    pub fn get(&self, id: u64) -> (row: Option<R>)
        requires
            self.wf(),
        ensures
            match row_under(self@.rows, id) {
                Some(v) => row matches Some(r) && r@ == v,
                None => row is None,
            },
    {
        let at: usize = self.locate(id);
        if at < self.rows.len() && self.rows[at].id_of() == id {
            Some(self.rows[at].copy_of())
        } else {
            None
        }
    }

    pub fn len(&self) -> (n: usize)
        ensures
            n == self@.rows.len(),
    {
        self.rows.len()
    }

    /// The row at an index.
    pub fn row(&self, at: usize) -> (row: &R)
        requires
            at < self@.rows.len(),
        ensures
            row@ == self@.rows[at as int],
    {
        &self.rows[at]
    }

    /// The highest id in the table, zero for none.
    pub fn last_id(&self) -> (id: u64)
        ensures
            id == watermark(self@.rows),
    {
        if self.rows.len() == 0 {
            0
        } else {
            self.rows[self.rows.len() - 1].id_of()
        }
    }

    /// Every row, newest id last.
    pub fn list(&self) -> (rows: Vec<R>)
        ensures
            views(rows@) == self@.rows,
    {
        let mut rows: Vec<R> = Vec::new();
        let mut i: usize = 0;
        while i < self.rows.len()
            invariant
                i <= self.rows@.len(),
                views(rows@) =~= views(self.rows@).take(i as int),
            decreases self.rows.len() - i,
        {
            let ghost before = rows@;
            rows.push(self.rows[i].copy_of());
            assert(views(rows@) =~= views(before).push(self.rows@[i as int]@));
            i = i + 1;
        }
        assert(views(self.rows@).take(i as int) =~= views(self.rows@));
        rows
    }

    /// Takes the journal: the rows written since it was last taken, in the
    /// order of their writing.
    pub fn take_writes(&mut self) -> (writes: Vec<R>)
        ensures
            views(writes@) == old(self)@.writes,
            final(self)@.rows == old(self)@.rows,
            final(self)@.writes == Seq::<R::V>::empty(),
    {
        let mut writes: Vec<R> = Vec::new();
        std::mem::swap(&mut writes, &mut self.writes);
        assert(views(self.writes@) =~= Seq::<R::V>::empty());
        writes
    }
}

}
