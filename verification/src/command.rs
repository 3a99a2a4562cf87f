//! The command store: one value per channel and command name.
//!
//! [`CommandStore`] keeps the table of commands in memory; [`add`],
//! [`remove`], [`get`] and [`list`] are its operations, each one step from
//! one table to the next. A write is a transaction of [`Statement`]s, which
//! any table that runs statements can carry out. What a step does is said
//! over the rows of the table, in the terms of [`crate::table`].

use crate::table::{
    capped, first_spec, get_query_spec, get_spec, id_taken, in_channel, keyed,
    law_get_query_looks_up, law_remove_plan_removes, law_replace_plan_upserts,
    lemma_executed_unique, lemma_list_query, lemma_without_absent, lemma_without_takes_one,
    list_query_spec, matching, present, queried, remove_plan_spec, replace_plan_spec, row_of,
    transacted, unique, upserted, without, QueryView, StatementView,
};
use vstd::prelude::*;

verus! {

/// One stored command.
#[derive(Debug, PartialEq, Eq)]
pub struct Command {
    /// Assigned when the row is written and never changed afterwards.
    pub id: u128,
    /// The chat room, marker character included.
    pub channel: String,
    /// The keyword that invokes the command.
    pub command: String,
    /// The reply.
    pub value: String,
}

/// [`Command`] over mathematical text.
pub struct CommandView {
    pub id: u128,
    pub channel: Seq<char>,
    pub command: Seq<char>,
    pub value: Seq<char>,
}

impl View for Command {
    type V = CommandView;

    open spec fn view(&self) -> CommandView {
        CommandView {
            id: self.id,
            channel: self.channel@,
            command: self.command@,
            value: self.value@,
        }
    }
}

impl Clone for Command {
    fn clone(&self) -> (copy: Self)
        ensures
            copy@ == self@,
    {
        Command {
            id: self.id,
            channel: self.channel.clone(),
            command: self.command.clone(),
            value: self.value.clone(),
        }
    }
}

/// Why a store operation did not deliver.
#[derive(Debug, Clone, Copy, PartialEq, Eq, Structural)]
pub enum StoreError {
    /// No row under the key that was looked up.
    NotFound,
    /// The table could not take the write, or could not be reached.
    Backend,
}

/// The rows held by a sequence of commands.
pub open spec fn rows_of(commands: Seq<Command>) -> Seq<CommandView> {
    Seq::new(commands.len(), |i: int| commands[i]@)
}

/// Whether `id` is laid out as a version 7 identifier: the version field
/// holds 7 and the variant field holds binary `10`.
pub open spec fn is_v7(id: u128) -> bool {
    (id >> 76) & 0xf == 7 && (id >> 62) & 0x3 == 2
}

/// Some identifier is laid out as version 7.
pub proof fn lemma_v7_exists() -> (id: u128)
    ensures
        is_v7(id),
{
    let id: u128 = 0x7000_8000_0000_0000_0000;
    assert((id >> 76) & 0xf == 7 && (id >> 62) & 0x3 == 2) by (bit_vector)
        requires
            id == 0x7000_8000_0000_0000_0000u128,
    ;
    id
}

/// A table of commands kept in memory, rows in the order they were written.
pub struct CommandStore {
    rows: Vec<Command>,
}

impl View for CommandStore {
    type V = Seq<CommandView>;

    closed spec fn view(&self) -> Seq<CommandView> {
        rows_of(self.rows@)
    }
}

/// One read of the table of commands: the rows of `channel`, only those of
/// command `name` if one is given, at most `limit` of them.
#[derive(Debug, PartialEq, Eq)]
pub struct Query {
    pub channel: String,
    pub name: Option<String>,
    pub limit: usize,
}

impl View for Query {
    type V = QueryView;

    open spec fn view(&self) -> QueryView {
        QueryView {
            channel: self.channel@,
            name: match self.name {
                Some(name) => Some(name@),
                None => None,
            },
            limit: self.limit as nat,
        }
    }
}

/// One statement against the table of commands.
#[derive(Debug, PartialEq, Eq)]
pub enum Statement {
    /// Take out the rows of command `name` in `channel`.
    Delete { channel: String, name: String },
    /// Put in `row`.
    Insert { row: Command },
}

impl View for Statement {
    type V = StatementView;

    open spec fn view(&self) -> StatementView {
        match self {
            Statement::Delete { channel, name } => StatementView::Delete {
                channel: channel@,
                name: name@,
            },
            Statement::Insert { row } => StatementView::Insert { row: row@ },
        }
    }
}

/// The statements held by a sequence of statements.
pub open spec fn statements_of(statements: Seq<Statement>) -> Seq<StatementView> {
    Seq::new(statements.len(), |i: int| statements[i]@)
}

/// Where the row of command `name` in `channel` stands in `rows`, if there
/// is one.
fn position_in(rows: &Vec<Command>, channel: &String, name: &String) -> (at: Option<usize>)
    ensures
        match at {
            Some(i) => i < rows@.len() && keyed(rows_of(rows@)[i as int], channel@, name@),
            None => !present(rows_of(rows@), channel@, name@),
        },
{
    let mut i: usize = 0;
    while i < rows.len()
        invariant
            i <= rows.len(),
            forall|j: int| 0 <= j < i ==> !keyed(#[trigger] rows_of(rows@)[j], channel@, name@),
        decreases rows.len() - i,
    {
        if rows[i].channel == *channel && rows[i].command == *name {
            return Some(i);
        }
        i += 1;
    }
    None
}

/// Whether some row of `rows` carries the identifier of `row`.
fn taken_in(rows: &Vec<Command>, row: &Command) -> (taken: bool)
    ensures
        taken == id_taken(rows_of(rows@), row@),
{
    let mut i: usize = 0;
    while i < rows.len()
        invariant
            i <= rows.len(),
            forall|j: int| 0 <= j < i ==> (#[trigger] rows_of(rows@)[j]).id != row.id,
        decreases rows.len() - i,
    {
        if rows[i].id == row.id {
            assert(rows_of(rows@)[i as int].id == row@.id);
            return true;
        }
        i += 1;
    }
    false
}

/// A copy of `rows`.
fn copy_rows(rows: &Vec<Command>) -> (copy: Vec<Command>)
    ensures
        rows_of(copy@) == rows_of(rows@),
{
    let mut copy: Vec<Command> = Vec::new();
    let mut i: usize = 0;
    while i < rows.len()
        invariant
            i <= rows.len(),
            rows_of(copy@) == rows_of(rows@).take(i as int),
        decreases rows.len() - i,
    {
        let ghost before = rows_of(copy@);
        copy.push(rows[i].clone());
        assert(rows_of(copy@) == before.push(rows@[i as int]@));
        assert(rows_of(rows@).take(i + 1) == rows_of(rows@).take(i as int).push(rows@[i as int]@));
        i += 1;
    }
    assert(rows_of(rows@).take(rows.len() as int) == rows_of(rows@));
    copy
}

impl CommandStore {
    #[verifier::type_invariant]
    spec fn well_formed(self) -> bool {
        unique(rows_of(self.rows@))
    }

    /// An empty table.
    pub fn new() -> (store: Self)
        ensures
            store@ == Seq::<CommandView>::empty(),
    {
        let store = CommandStore { rows: Vec::new() };
        assert(rows_of(store.rows@) == Seq::<CommandView>::empty());
        store
    }

    /// The number of rows.
    pub fn len(&self) -> (n: usize)
        ensures
            n == self@.len(),
            unique(self@),
    {
        proof {
            use_type_invariant(self);
        }
        self.rows.len()
    }

    /// Reads the table: the rows that `query` asks for, in stored order, at
    /// most as many as its limit.
    pub fn query(&self, query: &Query) -> (found: Vec<Command>)
        ensures
            rows_of(found@) == queried(self@, query@),
    {
        let mut found: Vec<Command> = Vec::new();
        let mut i: usize = 0;
        assert(self@.take(0) == Seq::<CommandView>::empty());
        assert(rows_of(found@) == Seq::<CommandView>::empty());
        while i < self.rows.len()
            invariant
                i <= self.rows.len(),
                rows_of(found@) == queried(self@.take(i as int), query@),
            decreases self.rows.len() - i,
        {
            let ghost seen = self@.take(i + 1);
            let ghost matched = matching(self@.take(i as int), query@);
            let ghost kept = rows_of(found@);
            assert(seen.drop_last() == self@.take(i as int));
            assert(seen.last() == self@[i as int]);
            let row = &self.rows[i];
            let named = match &query.name {
                Some(name) => row.command == *name,
                None => true,
            };
            if row.channel == query.channel && named {
                if found.len() < query.limit {
                    found.push(row.clone());
                    assert(rows_of(found@) == kept.push(self@[i as int]));
                    assert(kept == matched);
                    assert(capped(matched.push(self@[i as int]), query@.limit) == matched.push(
                        self@[i as int],
                    ));
                } else {
                    assert(matched.push(self@[i as int]).take(query@.limit as int)
                        == matched.take(query@.limit as int));
                }
            }
            i += 1;
        }
        assert(self@.take(self.rows.len() as int) == self@);
        found
    }

    /// As [`CommandStore::query`], and recalls the invariant of the table.
    fn rows_for(&self, query: &Query) -> (found: Vec<Command>)
        ensures
            rows_of(found@) == queried(self@, query@),
            unique(self@),
    {
        proof {
            use_type_invariant(self);
        }
        self.query(query)
    }

    /// Runs the statements of one transaction, in order. Either all of them
    /// take effect or, where one is refused, none does.
    pub fn transact(&mut self, statements: Vec<Statement>) -> (r: Result<(), StoreError>)
        ensures
            match transacted(old(self)@, statements_of(statements@)) {
                Ok(after) => r is Ok && final(self)@ == after,
                Err(e) => r == Err::<(), StoreError>(e) && final(self)@ == old(self)@,
            },
            unique(final(self)@),
    {
        proof {
            use_type_invariant(&*self);
        }
        let ghost before = self@;
        let ghost all = statements_of(statements@);
        let mut work = copy_rows(&self.rows);
        let mut i: usize = 0;
        assert(all.skip(0) =~= all);
        while i < statements.len()
            invariant
                i <= statements.len(),
                all == statements_of(statements@),
                unique(rows_of(work@)),
                unique(before),
                before == self@,
                transacted(before, all) == transacted(rows_of(work@), all.skip(i as int)),
            decreases statements.len() - i,
        {
            let ghost rows = rows_of(work@);
            let ghost rest = all.skip(i as int);
            assert(rest[0] == statements@[i as int]@);
            assert(rest.skip(1) =~= all.skip(i + 1));
            proof {
                lemma_executed_unique(rows, rest[0]);
            }
            match &statements[i] {
                Statement::Delete { channel, name } => {
                    match position_in(&work, channel, name) {
                        Some(at) => {
                            proof {
                                lemma_without_takes_one(rows, at as int, channel@, name@);
                            }
                            work.remove(at);
                            assert(rows_of(work@) == rows.remove(at as int));
                        },
                        None => {
                            proof {
                                lemma_without_absent(rows, channel@, name@);
                            }
                        },
                    }
                },
                Statement::Insert { row } => {
                    if position_in(&work, &row.channel, &row.command).is_some() || taken_in(
                        &work,
                        row,
                    ) {
                        return Err(StoreError::Backend);
                    }
                    work.push(row.clone());
                    assert(rows_of(work@) == rows.push(row@));
                },
            }
            i += 1;
        }
        assert(all.skip(statements.len() as int) =~= Seq::<StatementView>::empty());
        self.rows = work;
        Ok(())
    }

    /// Writes `row`, replacing whatever is stored under its key. Fails, and
    /// changes nothing, exactly when the identifier of `row` is already in
    /// use, be it by the row that would be replaced.
    pub fn insert(&mut self, row: Command) -> (r: Result<(), StoreError>)
        ensures
            r is Err <==> id_taken(old(self)@, row@),
            r is Err ==> r == Err::<(), StoreError>(StoreError::Backend) && final(self)@ == old(
                self,
            )@,
            r is Ok ==> final(self)@ == upserted(old(self)@, row@),
            unique(final(self)@),
    {
        proof {
            use_type_invariant(&*self);
        }
        if taken_in(&self.rows, &row) {
            return Err(StoreError::Backend);
        }
        proof {
            law_replace_plan_upserts(self@, row@);
        }
        self.transact(replace_plan(row))
    }
}

/// The transaction that writes `row` in place of whatever is stored under
/// its key.
pub fn replace_plan(row: Command) -> (plan: Vec<Statement>)
    ensures
        statements_of(plan@) == replace_plan_spec(row@),
{
    let mut plan: Vec<Statement> = Vec::new();
    plan.push(Statement::Delete { channel: row.channel.clone(), name: row.command.clone() });
    plan.push(Statement::Insert { row });
    assert(statements_of(plan@) =~= replace_plan_spec(row@));
    plan
}

/// The transaction that deletes command `name` of `channel`.
pub fn remove_plan(channel: &str, name: &str) -> (plan: Vec<Statement>)
    ensures
        statements_of(plan@) == remove_plan_spec(channel@, name@),
{
    let mut plan: Vec<Statement> = Vec::new();
    plan.push(Statement::Delete { channel: channel.to_owned(), name: name.to_owned() });
    assert(statements_of(plan@) =~= remove_plan_spec(channel@, name@));
    plan
}

/// The read behind a lookup of command `name` in `channel`.
pub fn get_query(channel: &str, name: &str) -> (query: Query)
    ensures
        query@ == get_query_spec(channel@, name@),
{
    Query { channel: channel.to_owned(), name: Some(name.to_owned()), limit: 1 }
}

/// The read behind a listing of `channel` with at most `limit` entries.
pub fn list_query(channel: &str, limit: usize) -> (query: Query)
    ensures
        query@ == list_query_spec(channel@, limit as nat),
{
    Query { channel: channel.to_owned(), name: None, limit }
}

/// Draws a fresh identifier: `uuid::Uuid::new_v7` on `uuid::Timestamp::now`
/// without a counter context, as a 128-bit number. The value depends on the
/// clock and on random bits; the contract claims only its layout, which
/// `new_v7` fixes: version 7, variant `10`.
#[verifier::external_body]
fn fresh_id() -> (id: u128)
    ensures
        is_v7(id),
{
    uuid::Uuid::new_v7(uuid::Timestamp::now(uuid::NoContext)).as_u128()
}

impl Command {
    /// The row that holds `value` as command `command` of `channel` under
    /// a freshly drawn identifier.
    pub fn fresh(channel: String, command: String, value: String) -> (row: Self)
        ensures
            is_v7(row.id),
            row@ == row_of(row.id, channel@, command@, value@),
    {
        Command { id: fresh_id(), channel, command, value }
    }
}

/// Stores `value` as command `command` of `channel` under a fresh
/// identifier, replacing whatever was stored under that key. The write is
/// one step: the table either holds the new row in place of the old or, where
/// the fresh identifier is one that a row already carries, is unchanged.
pub fn add(store: &mut CommandStore, channel: String, command: String, value: String) -> (r: Result<
    (),
    StoreError,
>)
    ensures
        unique(final(store)@),
        exists|id: u128|
            {
                &&& is_v7(id)
                &&& r is Err <==> id_taken(
                    old(store)@,
                    #[trigger] row_of(id, channel@, command@, value@),
                )
                &&& r is Ok ==> final(store)@ == upserted(
                    old(store)@,
                    row_of(id, channel@, command@, value@),
                )
            },
        r is Err ==> r == Err::<(), StoreError>(StoreError::Backend) && final(store)@ == old(
            store,
        )@,
{
    let row = Command::fresh(channel, command, value);
    store.insert(row)
}

/// Deletes command `command` of `channel` if it is stored; otherwise does
/// nothing. Always succeeds.
pub fn remove(store: &mut CommandStore, channel: &str, command: &str) -> (r: Result<(), StoreError>)
    ensures
        r is Ok,
        final(store)@ == without(old(store)@, channel@, command@),
        unique(final(store)@),
{
    proof {
        law_remove_plan_removes(store@, channel@, command@);
    }
    store.transact(remove_plan(channel, command))
}

/// Looks up command `command` of `channel`.
pub fn get(store: &CommandStore, channel: &str, command: &str) -> (r: Result<Command, StoreError>)
    ensures
        match r {
            Ok(found) => get_spec(store@, channel@, command@) == Ok::<CommandView, StoreError>(
                found@,
            ),
            Err(e) => get_spec(store@, channel@, command@) == Err::<CommandView, StoreError>(e),
        },
{
    let rows = store.rows_for(&get_query(channel, command));
    proof {
        law_get_query_looks_up(store@, channel@, command@);
    }
    first_of(rows)
}

/// The commands of `channel` in the order they were written, at most `limit`
/// of them. Always succeeds.
pub fn list(store: &CommandStore, channel: &str, limit: usize) -> (r: Result<
    Vec<Command>,
    StoreError,
>)
    ensures
        r matches Ok(found) && rows_of(found@) == capped(
            in_channel(store@, channel@),
            limit as nat,
        ),
{
    proof {
        lemma_list_query(store@, channel@, limit as nat);
    }
    Ok(store.query(&list_query(channel, limit)))
}

/// What a lookup makes of the rows that its read brought back: the first of
/// them, or `NotFound` if there is none.
pub fn first_of(rows: Vec<Command>) -> (r: Result<Command, StoreError>)
    ensures
        match r {
            Ok(found) => first_spec(rows_of(rows@)) == Ok::<CommandView, StoreError>(found@),
            Err(e) => first_spec(rows_of(rows@)) == Err::<CommandView, StoreError>(e),
        },
{
    if rows.len() == 0 {
        Err(StoreError::NotFound)
    } else {
        Ok(rows[0].clone())
    }
}

} // verus!
