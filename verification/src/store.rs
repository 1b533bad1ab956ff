//! The record store as the service sees it: the statements it is asked to
//! run, what it answers, and a model of the table behind it.

use vstd::prelude::*;
use crate::model::user::{views, User, UserView};

verus! {

/// Statement that makes the table, where it does not exist yet.
pub const CREATE_TABLE: &'static str = "CREATE TABLE IF NOT EXISTS users (\
    id SERIAL PRIMARY KEY, \
    name VARCHAR NOT NULL, \
    email VARCHAR NOT NULL)";

/// Statement that adds a record; parameters: name, email.
pub const INSERT_USER: &'static str = "INSERT INTO users (name, email) VALUES ($1, $2)";

/// Statement that reads the record with a given identifier; parameter: id.
pub const SELECT_USER: &'static str = "SELECT * FROM users WHERE id = $1";

/// Statement that reads every record.
pub const SELECT_USERS: &'static str = "SELECT * FROM users";

/// Statement that rewrites a record; parameters: name, email, id.
pub const UPDATE_USER: &'static str = "UPDATE users SET name = $1, email = $2 WHERE id = $3";

/// Statement that removes a record; parameter: id.
pub const DELETE_USER: &'static str = "DELETE FROM users WHERE id = $1";

/// A request to the record store.
#[derive(Clone, Debug, PartialEq, Eq)]
pub enum Query {
    Insert { name: String, email: String },
    SelectOne { id: i32 },
    SelectAll,
    Update { id: i32, name: String, email: String },
    Delete { id: i32 },
}

/// What a `Query` holds, as plain values.
pub enum QueryView {
    Insert { name: Seq<char>, email: Seq<char> },
    SelectOne { id: i32 },
    SelectAll,
    Update { id: i32, name: Seq<char>, email: Seq<char> },
    Delete { id: i32 },
}

impl View for Query {
    type V = QueryView;

    open spec fn view(&self) -> QueryView {
        match *self {
            Query::Insert { name, email } => QueryView::Insert { name: name@, email: email@ },
            Query::SelectOne { id } => QueryView::SelectOne { id },
            Query::SelectAll => QueryView::SelectAll,
            Query::Update { id, name, email } => QueryView::Update {
                id,
                name: name@,
                email: email@,
            },
            Query::Delete { id } => QueryView::Delete { id },
        }
    }
}

impl QueryView {
    /// The text of the statement that carries the query out.
    pub open spec fn statement(self) -> Seq<char> {
        match self {
            QueryView::Insert { .. } => INSERT_USER@,
            QueryView::SelectOne { .. } => SELECT_USER@,
            QueryView::SelectAll => SELECT_USERS@,
            QueryView::Update { .. } => UPDATE_USER@,
            QueryView::Delete { .. } => DELETE_USER@,
        }
    }
}

impl Query {
    /// The text of the statement that carries the query out. Its parameters
    /// are the query's fields, the identifier last.
    pub fn sql(&self) -> (text: &'static str)
        ensures
            text@ == self@.statement(),
    {
        match self {
            Query::Insert { .. } => INSERT_USER,
            Query::SelectOne { .. } => SELECT_USER,
            Query::SelectAll => SELECT_USERS,
            Query::Update { .. } => UPDATE_USER,
            Query::Delete { .. } => DELETE_USER,
        }
    }
}

/// What the record store answered.
#[derive(Debug, PartialEq, Eq)]
pub enum Outcome {
    /// The store could not be reached, or refused the statement.
    Failed,
    /// The rows that a select found, in the store's order.
    Rows(Vec<User>),
    /// The number of rows that an insert, update or delete touched.
    Affected(u64),
}

/// What an `Outcome` holds, as plain values.
pub enum OutcomeView {
    Failed,
    Rows(Seq<UserView>),
    Affected(u64),
}

impl View for Outcome {
    type V = OutcomeView;

    open spec fn view(&self) -> OutcomeView {
        match *self {
            Outcome::Failed => OutcomeView::Failed,
            Outcome::Rows(rows) => OutcomeView::Rows(views(rows@)),
            Outcome::Affected(count) => OutcomeView::Affected(count),
        }
    }
}

/// The predicate that holds of the rows with identifier `id`.
pub open spec fn has_id(id: i32) -> spec_fn(UserView) -> bool {
    |row: UserView| row.id == Some(id)
}

/// The predicate that holds of the rows with another identifier than `id`.
pub open spec fn lacks_id(id: i32) -> spec_fn(UserView) -> bool {
    |row: UserView| row.id != Some(id)
}

/// The function that gives the row `id` a new name and email and leaves
/// every other row as it is.
pub open spec fn rewrite(id: i32, name: Seq<char>, email: Seq<char>) -> spec_fn(UserView) -> UserView {
    |row: UserView|
        if row.id == Some(id) {
            UserView { id: row.id, name, email }
        } else {
            row
        }
}

/// Tells whether one of `rows` has the identifier `id`.
pub open spec fn names(rows: Seq<UserView>, id: i32) -> bool {
    exists|i: int| 0 <= i < rows.len() && (#[trigger] rows[i]).id == Some(id)
}

/// Tells whether no two of `rows` have the same identifier.
pub open spec fn distinct_ids(rows: Seq<UserView>) -> bool {
    forall|i: int, j: int|
        0 <= i < j < rows.len() ==> (#[trigger] rows[i]).id != (#[trigger] rows[j]).id
}

/// A model of the table of user records: its rows in the order in which
/// they were added, and the identifier that the next record will get.
/// Identifiers are given out in rising order and never a second time.
pub struct Table {
    pub rows: Seq<UserView>,
    pub next_id: int,
}

impl Table {
    /// Every row has an identifier that was given out, and no two rows
    /// have the same.
    pub open spec fn well_formed(self) -> bool {
        &&& forall|i: int|
            0 <= i < self.rows.len() ==> (#[trigger] self.rows[i]).id is Some
                && self.rows[i].id->0 < self.next_id
        &&& distinct_ids(self.rows)
    }

    /// Tells whether the table has an identifier left to give.
    pub open spec fn has_room(self) -> bool {
        i32::MIN <= self.next_id <= i32::MAX
    }

    /// Tells whether the table holds a record with identifier `id`.
    pub open spec fn holds(self, id: i32) -> bool {
        names(self.rows, id)
    }

    /// The rows with identifier `id`.
    pub open spec fn found(self, id: i32) -> Seq<UserView> {
        self.rows.filter(has_id(id))
    }

    /// The row that a new record with this name and email becomes.
    pub open spec fn fresh(self, name: Seq<char>, email: Seq<char>) -> UserView {
        UserView { id: Some(self.next_id as i32), name, email }
    }

    /// What a store that works does on `query`: the table afterwards, and
    /// the answer. An insert fails where no identifier is left.
    pub open spec fn answer(self, query: QueryView) -> (Table, OutcomeView) {
        match query {
            QueryView::Insert { name, email } => if self.has_room() {
                (
                    Table { rows: self.rows.push(self.fresh(name, email)), next_id: self.next_id + 1 },
                    OutcomeView::Affected(1),
                )
            } else {
                (self, OutcomeView::Failed)
            },
            QueryView::SelectOne { id } => (self, OutcomeView::Rows(self.found(id))),
            QueryView::SelectAll => (self, OutcomeView::Rows(self.rows)),
            QueryView::Update { id, name, email } => (
                Table { rows: self.rows.map_values(rewrite(id, name, email)), next_id: self.next_id },
                OutcomeView::Affected(self.found(id).len() as u64),
            ),
            QueryView::Delete { id } => (
                Table { rows: self.rows.filter(lacks_id(id)), next_id: self.next_id },
                OutcomeView::Affected(self.found(id).len() as u64),
            ),
        }
    }
}

/// Where no row has the identifier, none is found, and removing or
/// rewriting the rows that have it changes nothing.
pub proof fn lemma_absent(rows: Seq<UserView>, id: i32)
    requires
        !names(rows, id),
    ensures
        rows.filter(has_id(id)) == Seq::<UserView>::empty(),
        rows.filter(lacks_id(id)) == rows,
        forall|name: Seq<char>, email: Seq<char>|
            #[trigger] rows.map_values(rewrite(id, name, email)) == rows,
    decreases rows.len(),
{
    reveal(Seq::filter);
    if rows.len() > 0 {
        let front = rows.drop_last();
        assert(!names(front, id)) by {
            if names(front, id) {
                let i = choose|i: int| 0 <= i < front.len() && (#[trigger] front[i]).id == Some(id);
                assert(rows[i].id == Some(id));
            }
        }
        lemma_absent(front, id);
        assert(rows.last().id != Some(id)) by {
            assert(rows[rows.len() - 1] == rows.last());
        }
        assert(front.push(rows.last()) == rows);
    }
    assert forall|name: Seq<char>, email: Seq<char>|
        #[trigger] rows.map_values(rewrite(id, name, email)) == rows by {
        let changed = rows.map_values(rewrite(id, name, email));
        assert forall|i: int| 0 <= i < rows.len() implies changed[i] == rows[i] by {
            assert(rows[i].id != Some(id));
        }
        assert(changed =~= rows);
    }
}

/// Where rows have distinct identifiers and one of them has the identifier
/// `id`, that row and no other is found.
pub proof fn lemma_present(rows: Seq<UserView>, id: i32)
    requires
        distinct_ids(rows),
        names(rows, id),
    ensures
        rows.filter(has_id(id)).len() == 1,
        rows.filter(has_id(id))[0].id == Some(id),
        rows.contains(rows.filter(has_id(id))[0]),
    decreases rows.len(),
{
    reveal(Seq::filter);
    let front = rows.drop_last();
    let last = rows.last();
    assert(distinct_ids(front)) by {
        assert forall|i: int, j: int| 0 <= i < j < front.len() implies (#[trigger] front[i]).id
            != (#[trigger] front[j]).id by {
            assert(rows[i].id != rows[j].id);
        }
    }
    if last.id == Some(id) {
        assert(!names(front, id)) by {
            if names(front, id) {
                let i = choose|i: int| 0 <= i < front.len() && (#[trigger] front[i]).id == Some(id);
                assert(rows[i].id != rows[rows.len() - 1].id);
            }
        }
        lemma_absent(front, id);
        assert(rows[rows.len() - 1] == last);
    } else {
        let i = choose|i: int| 0 <= i < rows.len() && (#[trigger] rows[i]).id == Some(id);
        assert(i < front.len());
        assert(front[i].id == Some(id));
        lemma_present(front, id);
        let row = front.filter(has_id(id))[0];
        let k = choose|k: int| 0 <= k < front.len() && front[k] == row;
        assert(rows[k] == row);
    }
}

/// Removing the rows with the identifier `id` leaves none that has it,
/// keeps only rows that were there, and keeps identifiers distinct.
pub proof fn lemma_removed(rows: Seq<UserView>, id: i32)
    ensures
        !names(rows.filter(lacks_id(id)), id),
        forall|k: int|
            0 <= k < rows.filter(lacks_id(id)).len() ==> rows.contains(
                #[trigger] rows.filter(lacks_id(id))[k],
            ),
        distinct_ids(rows) ==> distinct_ids(rows.filter(lacks_id(id))),
    decreases rows.len(),
{
    reveal(Seq::filter);
    let kept = rows.filter(lacks_id(id));
    if rows.len() > 0 {
        let front = rows.drop_last();
        let last = rows.last();
        let sub = front.filter(lacks_id(id));
        lemma_removed(front, id);
        assert forall|k: int| 0 <= k < kept.len() implies rows.contains(#[trigger] kept[k]) by {
            if k < sub.len() {
                assert(front.contains(sub[k]));
                let i = choose|i: int| 0 <= i < front.len() && front[i] == sub[k];
                assert(rows[i] == kept[k]);
            } else {
                assert(rows[rows.len() - 1] == kept[k]);
            }
        }
        assert(!names(kept, id)) by {
            if names(kept, id) {
                let k = choose|k: int| 0 <= k < kept.len() && (#[trigger] kept[k]).id == Some(id);
                if k < sub.len() {
                    assert(sub[k].id == Some(id));
                }
            }
        }
        if distinct_ids(rows) {
            assert(distinct_ids(front)) by {
                assert forall|i: int, j: int| 0 <= i < j < front.len() implies (
                    #[trigger] front[i]
                ).id != (#[trigger] front[j]).id by {
                    assert(rows[i].id != rows[j].id);
                }
            }
            assert forall|i: int, j: int| 0 <= i < j < kept.len() implies (#[trigger] kept[i]).id
                != (#[trigger] kept[j]).id by {
                if j < sub.len() {
                    assert(sub[i].id != sub[j].id);
                } else {
                    assert(front.contains(sub[i]));
                    let m = choose|m: int| 0 <= m < front.len() && front[m] == sub[i];
                    assert(rows[m].id != rows[rows.len() - 1].id);
                }
            }
        }
    }
}

/// A store that works keeps the table well formed.
pub proof fn lemma_answer_keeps_well_formed(table: Table, query: QueryView)
    requires
        table.well_formed(),
    ensures
        table.answer(query).0.well_formed(),
        table.answer(query).0.next_id >= table.next_id,
{
    let after = table.answer(query).0;
    match query {
        QueryView::Insert { name, email } => {
            if table.has_room() {
                assert forall|i: int, j: int| 0 <= i < j < after.rows.len() implies (
                    #[trigger] after.rows[i]
                ).id != (#[trigger] after.rows[j]).id by {
                    assert(after.rows[i] == table.rows[i]);
                    if j < table.rows.len() {
                        assert(after.rows[j] == table.rows[j]);
                    }
                }
                assert forall|i: int| 0 <= i < after.rows.len() implies (
                    #[trigger] after.rows[i]
                ).id is Some && after.rows[i].id->0 < after.next_id by {
                    if i < table.rows.len() {
                        assert(after.rows[i] == table.rows[i]);
                    }
                }
            }
        },
        QueryView::Update { id, name, email } => {
            assert forall|i: int, j: int| 0 <= i < j < after.rows.len() implies (
                #[trigger] after.rows[i]
            ).id != (#[trigger] after.rows[j]).id by {
                assert(table.rows[i].id != table.rows[j].id);
            }
            assert forall|i: int| 0 <= i < after.rows.len() implies (
                #[trigger] after.rows[i]
            ).id is Some && after.rows[i].id->0 < after.next_id by {
                assert(table.rows[i].id is Some);
            }
        },
        QueryView::Delete { id } => {
            lemma_removed(table.rows, id);
            assert forall|k: int| 0 <= k < after.rows.len() implies (
                #[trigger] after.rows[k]
            ).id is Some && after.rows[k].id->0 < after.next_id by {
                assert(table.rows.contains(after.rows[k]));
                let i = choose|i: int| 0 <= i < table.rows.len() && table.rows[i] == after.rows[k];
                assert(table.rows[i].id is Some);
            }
        },
        _ => {},
    }
}

/// A record that was added is the one row found under the identifier that
/// it was given.
pub proof fn lemma_inserted(table: Table, name: Seq<char>, email: Seq<char>)
    requires
        table.well_formed(),
        table.has_room(),
    ensures
        table.answer(QueryView::Insert { name, email }).0.found(table.next_id as i32) == seq![
            table.fresh(name, email),
        ],
{
    reveal(Seq::filter);
    let id = table.next_id as i32;
    let after = table.answer(QueryView::Insert { name, email }).0;
    assert(!names(table.rows, id)) by {
        if names(table.rows, id) {
            let i = choose|i: int| 0 <= i < table.rows.len() && (#[trigger] table.rows[i]).id == Some(id);
            assert(table.rows[i].id->0 < table.next_id);
        }
    }
    lemma_absent(table.rows, id);
    assert(after.rows.drop_last() == table.rows);
    assert(after.rows.last() == table.fresh(name, email));
    assert(after.found(id) =~= seq![table.fresh(name, email)]);
}

/// A record that was rewritten is found under its identifier with the new
/// name and email.
pub proof fn lemma_updated(table: Table, id: i32, name: Seq<char>, email: Seq<char>)
    requires
        table.well_formed(),
        table.holds(id),
    ensures
        table.answer(QueryView::Update { id, name, email }).0.found(id) == seq![
            UserView { id: Some(id), name, email },
        ],
{
    let after = table.answer(QueryView::Update { id, name, email }).0;
    lemma_answer_keeps_well_formed(table, QueryView::Update { id, name, email });
    let i = choose|i: int| 0 <= i < table.rows.len() && (#[trigger] table.rows[i]).id == Some(id);
    assert(after.rows[i] == UserView { id: Some(id), name, email });
    assert(names(after.rows, id));
    lemma_present(after.rows, id);
    let row = after.found(id)[0];
    let k = choose|k: int| 0 <= k < after.rows.len() && after.rows[k] == row;
    assert(table.rows[k].id == Some(id));
    assert(after.found(id) =~= seq![UserView { id: Some(id), name, email }]);
}

} // verus!
