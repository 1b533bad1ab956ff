//! Whole exchanges, from the request to the response, against a model of
//! the record store and of the codec, and what holds of them.

use vstd::prelude::*;
use crate::model::user::UserView;
use crate::server::{
    failure, missing, route_of, step, success, CommandView, EventView, Exchange, Operation,
    PayloadView, USER_CREATED, USER_DELETED, USER_UPDATED,
};
use crate::store::{
    lemma_absent, lemma_inserted, lemma_present, lemma_removed, lemma_updated, rewrite, Table,
};
use crate::util::{body_of, id_of, integer_of};
use crate::{INTERNAL_SERVER_ERROR, NOT_FOUND, OK_RESPONSE};

verus! {

/// A model of the codec: what it reads out of a body, and what it writes
/// for records. Each may fail.
pub struct Codec {
    pub decode: spec_fn(Seq<char>) -> Option<UserView>,
    pub encode: spec_fn(PayloadView) -> Option<Seq<char>>,
}

/// Takes an exchange on from `state` and `event` until it ends or `calls`
/// commands have been carried out: bodies and records go to `codec`,
/// queries to a store that works on `table`. The result is the table
/// afterwards and the last command.
pub open spec fn run(
    url: Seq<char>,
    table: Table,
    codec: Codec,
    state: Exchange,
    event: EventView,
    calls: nat,
) -> (Table, CommandView)
    decreases calls,
{
    let (next, command) = step(url, state, event);
    if calls == 0 {
        (table, command)
    } else {
        let left = (calls - 1) as nat;
        match command {
            CommandView::Decode(body) => run(
                url,
                table,
                codec,
                next,
                EventView::Decoded((codec.decode)(body)),
                left,
            ),
            CommandView::Ask { url: _, query } => run(
                url,
                table.answer(query).0,
                codec,
                next,
                EventView::Answered(table.answer(query).1),
                left,
            ),
            CommandView::Encode(payload) => run(
                url,
                table,
                codec,
                next,
                EventView::Encoded((codec.encode)(payload)),
                left,
            ),
            _ => (table, command),
        }
    }
}

/// The exchange that `request` starts: the table afterwards, and the
/// command that ends it. No exchange takes more than three commands
/// before its last.
pub open spec fn serve(url: Seq<char>, table: Table, codec: Codec, request: Seq<char>) -> (
    Table,
    CommandView,
) {
    run(url, table, codec, Exchange::Idle, EventView::Request(request), 3)
}

/// The response to records that went to the codec: their text, or a
/// failure where the codec did not write them.
pub open spec fn encoded(codec: Codec, payload: PayloadView) -> CommandView {
    match (codec.encode)(payload) {
        Some(text) => success(text).1,
        None => failure().1,
    }
}

/// An exchange is over exactly when the handler says what to send, or to
/// send nothing: every other command leaves it open.
pub proof fn law_last_command_closes(url: Seq<char>, state: Exchange, event: EventView)
    ensures
        step(url, state, event).0 == Exchange::Closed <==> step(url, state, event).1 is Reply
            || step(url, state, event).1 is Hangup,
{
}

/// Every request is answered: whatever the request, the table and the
/// codec, the exchange ends with a response, and its status line is one of
/// the three that the service knows.
pub proof fn law_every_request_is_answered(
    url: Seq<char>,
    table: Table,
    codec: Codec,
    request: Seq<char>,
)
    ensures
        serve(url, table, codec, request).1 matches CommandView::Reply { status_line, .. }
            && (status_line == OK_RESPONSE@ || status_line == NOT_FOUND@ || status_line
            == INTERNAL_SERVER_ERROR@),
{
    reveal_with_fuel(run, 4);
}

/// A record that was created is read back: after a create request whose
/// body the codec reads as `record`, on a table with an identifier left, a
/// read of the identifier that the record was given finds one record,
/// with that identifier and the name and email of `record`, and answers
/// with its text.
pub proof fn law_created_record_is_read_back(
    url: Seq<char>,
    table: Table,
    codec: Codec,
    create: Seq<char>,
    read: Seq<char>,
    record: UserView,
)
    requires
        table.well_formed(),
        table.has_room(),
        route_of(create) == Some(Operation::Create),
        (codec.decode)(body_of(create)) == Some(record),
        route_of(read) == Some(Operation::ReadOne),
        integer_of(id_of(read)) == Some(table.next_id as i32),
    ensures
        serve(url, table, codec, create).1 == success(USER_CREATED@).1,
        ({
            let after = serve(url, table, codec, create).0;
            let stored = UserView {
                id: Some(table.next_id as i32),
                name: record.name,
                email: record.email,
            };
            serve(url, after, codec, read) == (after, encoded(codec, PayloadView::One(stored)))
        }),
{
    reveal_with_fuel(run, 4);
    lemma_inserted(table, record.name, record.email);
}

/// A read of a record that is not there answers that it was not found, and
/// leaves the table as it is.
pub proof fn law_read_of_missing_record(
    url: Seq<char>,
    table: Table,
    codec: Codec,
    request: Seq<char>,
    id: i32,
)
    requires
        !table.holds(id),
        route_of(request) == Some(Operation::ReadOne),
        integer_of(id_of(request)) == Some(id),
    ensures
        serve(url, table, codec, request) == (table, missing().1),
{
    reveal_with_fuel(run, 4);
    lemma_absent(table.rows, id);
}

/// A delete of a record that is not there answers that it was not found,
/// and leaves the table as it is.
pub proof fn law_delete_of_missing_record(
    url: Seq<char>,
    table: Table,
    codec: Codec,
    request: Seq<char>,
    id: i32,
)
    requires
        !table.holds(id),
        route_of(request) == Some(Operation::Delete),
        integer_of(id_of(request)) == Some(id),
    ensures
        serve(url, table, codec, request) == (table, missing().1),
{
    reveal_with_fuel(run, 4);
    lemma_absent(table.rows, id);
}

/// An update of a record that is not there answers with success all the
/// same, and leaves the table as it is.
pub proof fn law_update_of_missing_record(
    url: Seq<char>,
    table: Table,
    codec: Codec,
    request: Seq<char>,
    id: i32,
    record: UserView,
)
    requires
        !table.holds(id),
        route_of(request) == Some(Operation::Update),
        integer_of(id_of(request)) == Some(id),
        (codec.decode)(body_of(request)) == Some(record),
    ensures
        serve(url, table, codec, request) == (table, success(USER_UPDATED@).1),
{
    reveal_with_fuel(run, 4);
    lemma_absent(table.rows, id);
    assert(table.rows.map_values(rewrite(id, record.name, record.email)) == table.rows);
}

/// A read of all records answers with the text of the rows of the table,
/// in their order, and leaves the table as it is.
pub proof fn law_read_all(url: Seq<char>, table: Table, codec: Codec, request: Seq<char>)
    requires
        route_of(request) == Some(Operation::ReadAll),
    ensures
        serve(url, table, codec, request) == (table, encoded(codec, PayloadView::All(table.rows))),
{
    reveal_with_fuel(run, 4);
}

/// A read of all records of an empty table answers with success and the
/// text that the codec writes for no records: neither a failure nor a
/// record that was not found.
pub proof fn law_read_all_of_empty_table(
    url: Seq<char>,
    table: Table,
    codec: Codec,
    request: Seq<char>,
    text: Seq<char>,
)
    requires
        table.rows == Seq::<UserView>::empty(),
        route_of(request) == Some(Operation::ReadAll),
        (codec.encode)(PayloadView::All(Seq::empty())) == Some(text),
    ensures
        serve(url, table, codec, request) == (table, success(text).1),
{
    law_read_all(url, table, codec, request);
}

/// A delete takes effect once: the first delete of a record that is there
/// answers with success and removes it, and a second delete of the same
/// record answers that it was not found.
pub proof fn law_delete_twice(
    url: Seq<char>,
    table: Table,
    codec: Codec,
    request: Seq<char>,
    id: i32,
)
    requires
        table.well_formed(),
        table.holds(id),
        route_of(request) == Some(Operation::Delete),
        integer_of(id_of(request)) == Some(id),
    ensures
        serve(url, table, codec, request).1 == success(USER_DELETED@).1,
        !serve(url, table, codec, request).0.holds(id),
        ({
            let after = serve(url, table, codec, request).0;
            serve(url, after, codec, request) == (after, missing().1)
        }),
{
    reveal_with_fuel(run, 4);
    lemma_present(table.rows, id);
    lemma_removed(table.rows, id);
    let after = serve(url, table, codec, request).0;
    law_delete_of_missing_record(url, after, codec, request, id);
}

/// A record that was updated is read back: after an update of a record
/// that is there, whose body the codec reads as `record`, a read of the
/// same identifier finds one record, with that identifier and the name
/// and email of `record`, and answers with its text.
pub proof fn law_updated_record_is_read_back(
    url: Seq<char>,
    table: Table,
    codec: Codec,
    update: Seq<char>,
    read: Seq<char>,
    id: i32,
    record: UserView,
)
    requires
        table.well_formed(),
        table.holds(id),
        route_of(update) == Some(Operation::Update),
        integer_of(id_of(update)) == Some(id),
        (codec.decode)(body_of(update)) == Some(record),
        route_of(read) == Some(Operation::ReadOne),
        integer_of(id_of(read)) == Some(id),
    ensures
        serve(url, table, codec, update).1 == success(USER_UPDATED@).1,
        ({
            let after = serve(url, table, codec, update).0;
            let stored = UserView { id: Some(id), name: record.name, email: record.email };
            serve(url, after, codec, read) == (after, encoded(codec, PayloadView::One(stored)))
        }),
{
    reveal_with_fuel(run, 4);
    lemma_updated(table, id, record.name, record.email);
}

} // verus!
