//! The table of stored commands as a mathematical object.
//!
//! A table is a sequence of rows in the order in which they were written.
//! The functions here say what each operation of the store does to a table;
//! the laws say what follows.

use crate::command::{CommandView, StoreError};
use vstd::prelude::*;

verus! {

/// The row that holds `value` as command `command` of `channel` under `id`.
pub open spec fn row_of(
    id: u128,
    channel: Seq<char>,
    command: Seq<char>,
    value: Seq<char>,
) -> CommandView {
    CommandView { id, channel, command, value }
}

/// Whether `row` is the row of command `name` in `channel`.
pub open spec fn keyed(row: CommandView, channel: Seq<char>, name: Seq<char>) -> bool {
    row.channel == channel && row.command == name
}

/// Whether some row of `rows` is that of command `name` in `channel`.
pub open spec fn present(rows: Seq<CommandView>, channel: Seq<char>, name: Seq<char>) -> bool {
    exists|i: int| 0 <= i < rows.len() && keyed(#[trigger] rows[i], channel, name)
}

/// The invariant of a table: no two rows share a key, no two rows share an
/// identifier.
pub open spec fn unique(rows: Seq<CommandView>) -> bool {
    forall|i: int, j: int|
        0 <= i < j < rows.len() ==> {
            &&& !keyed(#[trigger] rows[i], (#[trigger] rows[j]).channel, rows[j].command)
            &&& rows[i].id != rows[j].id
        }
}

/// `rows` without the rows of command `name` in `channel`, order kept.
pub open spec fn without(rows: Seq<CommandView>, channel: Seq<char>, name: Seq<char>) -> Seq<
    CommandView,
>
    decreases rows.len(),
{
    if rows.len() == 0 {
        rows
    } else if keyed(rows.last(), channel, name) {
        without(rows.drop_last(), channel, name)
    } else {
        without(rows.drop_last(), channel, name).push(rows.last())
    }
}

/// The rows of `rows` that belong to `channel`, order kept.
pub open spec fn in_channel(rows: Seq<CommandView>, channel: Seq<char>) -> Seq<CommandView>
    decreases rows.len(),
{
    if rows.len() == 0 {
        rows
    } else if rows.last().channel == channel {
        in_channel(rows.drop_last(), channel).push(rows.last())
    } else {
        in_channel(rows.drop_last(), channel)
    }
}

/// The first `limit` items of `rows`, or all of them if there are fewer.
pub open spec fn capped(rows: Seq<CommandView>, limit: nat) -> Seq<CommandView> {
    if limit < rows.len() {
        rows.take(limit as int)
    } else {
        rows
    }
}

/// Whether the identifier of `row` is already in use: some row of `rows`
/// carries it, under whatever key. An identifier is never used twice, not
/// even for the row that replaces its holder.
pub open spec fn id_taken(rows: Seq<CommandView>, row: CommandView) -> bool {
    exists|i: int| 0 <= i < rows.len() && (#[trigger] rows[i]).id == row.id
}

/// The table after `row` replaced whatever was stored under its key.
pub open spec fn upserted(rows: Seq<CommandView>, row: CommandView) -> Seq<CommandView> {
    without(rows, row.channel, row.command).push(row)
}

/// One read of the table: the rows of `channel`, only those of command
/// `name` if one is given, at most `limit` of them.
pub struct QueryView {
    pub channel: Seq<char>,
    pub name: Option<Seq<char>>,
    pub limit: nat,
}

/// Whether `row` is one that `query` asks for.
pub open spec fn asked_for(row: CommandView, query: QueryView) -> bool {
    row.channel == query.channel && (query.name matches Some(name) ==> row.command == name)
}

/// The rows of `rows` that `query` asks for, order kept, limit left aside.
pub open spec fn matching(rows: Seq<CommandView>, query: QueryView) -> Seq<CommandView>
    decreases rows.len(),
{
    if rows.len() == 0 {
        rows
    } else if asked_for(rows.last(), query) {
        matching(rows.drop_last(), query).push(rows.last())
    } else {
        matching(rows.drop_last(), query)
    }
}

/// What `query` brings back from the table `rows`.
pub open spec fn queried(rows: Seq<CommandView>, query: QueryView) -> Seq<CommandView> {
    capped(matching(rows, query), query.limit)
}

/// The read behind a lookup of command `name` in `channel`: one row is
/// enough.
pub open spec fn get_query_spec(channel: Seq<char>, name: Seq<char>) -> QueryView {
    QueryView { channel, name: Some(name), limit: 1 }
}

/// The read behind a listing of `channel`.
pub open spec fn list_query_spec(channel: Seq<char>, limit: nat) -> QueryView {
    QueryView { channel, name: None, limit }
}

/// What a lookup makes of the rows that its read brought back: the first of
/// them, or `NotFound` if there is none.
pub open spec fn first_spec(rows: Seq<CommandView>) -> Result<CommandView, StoreError> {
    if rows.len() == 0 {
        Err(StoreError::NotFound)
    } else {
        Ok(rows[0])
    }
}

/// One statement against the table.
pub enum StatementView {
    /// Take out the rows of command `name` in `channel`.
    Delete { channel: Seq<char>, name: Seq<char> },
    /// Put in `row`.
    Insert { row: CommandView },
}

/// The table after one statement, or the refusal of the statement. A delete
/// is never refused. An insert is refused where the table already holds a row
/// under the key of the new row or one that carries its identifier.
pub open spec fn executed(rows: Seq<CommandView>, statement: StatementView) -> Result<
    Seq<CommandView>,
    StoreError,
> {
    match statement {
        StatementView::Delete { channel, name } => Ok(without(rows, channel, name)),
        StatementView::Insert { row } => if present(rows, row.channel, row.command) || id_taken(
            rows,
            row,
        ) {
            Err(StoreError::Backend)
        } else {
            Ok(rows.push(row))
        },
    }
}

/// The table after the statements of one transaction, in order. If one of
/// them is refused, so is the transaction, and the table stays as it was.
pub open spec fn transacted(rows: Seq<CommandView>, statements: Seq<StatementView>) -> Result<
    Seq<CommandView>,
    StoreError,
>
    decreases statements.len(),
{
    if statements.len() == 0 {
        Ok(rows)
    } else {
        match executed(rows, statements[0]) {
            Ok(next) => transacted(next, statements.skip(1)),
            Err(e) => Err(e),
        }
    }
}

/// The transaction that writes `row` in place of whatever is stored under
/// its key: the old row goes, then the new one comes.
pub open spec fn replace_plan_spec(row: CommandView) -> Seq<StatementView> {
    seq![
        StatementView::Delete { channel: row.channel, name: row.command },
        StatementView::Insert { row },
    ]
}

/// The transaction that deletes command `name` of `channel`.
pub open spec fn remove_plan_spec(channel: Seq<char>, name: Seq<char>) -> Seq<StatementView> {
    seq![StatementView::Delete { channel, name }]
}

/// What a lookup of command `name` in `channel` returns.
pub open spec fn get_spec(rows: Seq<CommandView>, channel: Seq<char>, name: Seq<char>) -> Result<
    CommandView,
    StoreError,
> {
    if present(rows, channel, name) {
        Ok(rows[choose|i: int| 0 <= i < rows.len() && keyed(#[trigger] rows[i], channel, name)])
    } else {
        Err(StoreError::NotFound)
    }
}

/// Every row of `without(rows, ..)` is a row of `rows` under another key.
pub proof fn lemma_without_keeps_others(rows: Seq<CommandView>, channel: Seq<char>, name: Seq<char>)
    ensures
        without(rows, channel, name).len() <= rows.len(),
        forall|k: int|
            0 <= k < without(rows, channel, name).len() ==> {
                &&& !keyed(#[trigger] without(rows, channel, name)[k], channel, name)
                &&& rows.contains(without(rows, channel, name)[k])
            },
        forall|i: int|
            0 <= i < rows.len() && !keyed(#[trigger] rows[i], channel, name) ==> without(
                rows,
                channel,
                name,
            ).contains(rows[i]),
    decreases rows.len(),
{
    if rows.len() > 0 {
        let init = rows.drop_last();
        lemma_without_keeps_others(init, channel, name);
        let kept = without(rows, channel, name);
        let before = without(init, channel, name);
        assert forall|k: int| 0 <= k < kept.len() implies rows.contains(#[trigger] kept[k]) && !keyed(
            kept[k],
            channel,
            name,
        ) by {
            if k < before.len() {
                assert(kept[k] == before[k]);
                assert(init.contains(before[k]));
                let j = choose|j: int| 0 <= j < init.len() && init[j] == before[k];
                assert(rows[j] == kept[k]);
            } else {
                assert(kept[k] == rows[rows.len() - 1]);
            }
        }
        assert forall|i: int| 0 <= i < rows.len() && !keyed(#[trigger] rows[i], channel, name) implies kept.contains(
            rows[i],
        ) by {
            if i < init.len() {
                assert(init[i] == rows[i]);
                assert(before.contains(init[i]));
                let k = choose|k: int| 0 <= k < before.len() && before[k] == init[i];
                assert(kept[k] == rows[i]);
            } else {
                assert(kept[kept.len() - 1] == rows[i]);
            }
        }
    }
}

/// Removing an absent key changes nothing.
pub proof fn lemma_without_absent(rows: Seq<CommandView>, channel: Seq<char>, name: Seq<char>)
    requires
        !present(rows, channel, name),
    ensures
        without(rows, channel, name) == rows,
    decreases rows.len(),
{
    if rows.len() > 0 {
        let init = rows.drop_last();
        assert(!keyed(rows[rows.len() - 1], channel, name));
        assert forall|i: int| 0 <= i < init.len() implies !keyed(#[trigger] init[i], channel, name) by {
            assert(init[i] == rows[i]);
        }
        lemma_without_absent(init, channel, name);
        assert(init.push(rows.last()) == rows);
    }
}

/// In a table with unique keys, removing a key takes out exactly the one row
/// that carries it.
pub proof fn lemma_without_takes_one(
    rows: Seq<CommandView>,
    at: int,
    channel: Seq<char>,
    name: Seq<char>,
)
    requires
        unique(rows),
        0 <= at < rows.len(),
        keyed(rows[at], channel, name),
    ensures
        without(rows, channel, name) == rows.remove(at),
    decreases rows.len(),
{
    let init = rows.drop_last();
    let last = rows.len() - 1;
    if at == last {
        assert forall|i: int| 0 <= i < init.len() implies !keyed(#[trigger] init[i], channel, name) by {
            assert(init[i] == rows[i]);
            assert(!keyed(rows[i], rows[last].channel, rows[last].command));
        }
        lemma_without_absent(init, channel, name);
        assert(rows.remove(at) == init);
    } else {
        assert(!keyed(rows[at], rows[last].channel, rows[last].command));
        assert(init[at] == rows[at]);
        assert forall|i: int, j: int| 0 <= i < j < init.len() implies {
            &&& !keyed(#[trigger] init[i], (#[trigger] init[j]).channel, init[j].command)
            &&& init[i].id != init[j].id
        } by {
            assert(init[i] == rows[i] && init[j] == rows[j]);
        }
        lemma_without_takes_one(init, at, channel, name);
        assert(init.remove(at).push(rows.last()) == rows.remove(at));
    }
}

/// Removing a key keeps a table's invariant.
pub proof fn lemma_without_unique(rows: Seq<CommandView>, channel: Seq<char>, name: Seq<char>)
    requires
        unique(rows),
    ensures
        unique(without(rows, channel, name)),
{
    if present(rows, channel, name) {
        let at = choose|i: int| 0 <= i < rows.len() && keyed(#[trigger] rows[i], channel, name);
        lemma_without_takes_one(rows, at, channel, name);
        let kept = rows.remove(at);
        assert forall|i: int, j: int| 0 <= i < j < kept.len() implies {
            &&& !keyed(#[trigger] kept[i], (#[trigger] kept[j]).channel, kept[j].command)
            &&& kept[i].id != kept[j].id
        } by {
            let a = if i < at { i } else { i + 1 };
            let b = if j < at { j } else { j + 1 };
            assert(kept[i] == rows[a] && kept[j] == rows[b]);
        }
    } else {
        lemma_without_absent(rows, channel, name);
    }
}

/// An upsert whose identifier is free keeps a table's invariant.
pub proof fn lemma_upserted_unique(rows: Seq<CommandView>, row: CommandView)
    requires
        unique(rows),
        !id_taken(rows, row),
    ensures
        unique(upserted(rows, row)),
{
    let kept = without(rows, row.channel, row.command);
    let next = upserted(rows, row);
    lemma_without_unique(rows, row.channel, row.command);
    lemma_without_keeps_others(rows, row.channel, row.command);
    assert forall|i: int, j: int| 0 <= i < j < next.len() implies {
        &&& !keyed(#[trigger] next[i], (#[trigger] next[j]).channel, next[j].command)
        &&& next[i].id != next[j].id
    } by {
        assert(next[i] == kept[i]);
        if j < kept.len() {
            assert(next[j] == kept[j]);
        } else {
            assert(next[j] == row);
            assert(rows.contains(kept[i]));
            let k = choose|k: int| 0 <= k < rows.len() && rows[k] == kept[i];
            assert(!keyed(rows[k], row.channel, row.command));
        }
    }
}

/// In a table with unique keys a lookup returns the one row under the key.
pub proof fn lemma_get_finds(rows: Seq<CommandView>, at: int)
    requires
        unique(rows),
        0 <= at < rows.len(),
    ensures
        get_spec(rows, rows[at].channel, rows[at].command) == Ok::<CommandView, StoreError>(rows[at]),
{
    let channel = rows[at].channel;
    let name = rows[at].command;
    assert(keyed(rows[at], channel, name));
    let found = choose|i: int| 0 <= i < rows.len() && keyed(#[trigger] rows[i], channel, name);
    if found < at {
        assert(!keyed(rows[found], rows[at].channel, rows[at].command));
    } else if at < found {
        assert(!keyed(rows[at], rows[found].channel, rows[found].command));
    }
}

/// A lookup right after an upsert returns the row that was written, and no
/// other row of the table carries its key.
pub proof fn law_upsert_then_get(rows: Seq<CommandView>, row: CommandView)
    ensures
        get_spec(upserted(rows, row), row.channel, row.command) == Ok::<CommandView, StoreError>(
            row,
        ),
        forall|i: int|
            0 <= i < upserted(rows, row).len() && keyed(
                #[trigger] upserted(rows, row)[i],
                row.channel,
                row.command,
            ) ==> i == upserted(rows, row).len() - 1,
{
    let after = upserted(rows, row);
    lemma_without_keeps_others(rows, row.channel, row.command);
    assert(keyed(after[after.len() - 1], row.channel, row.command));
    assert forall|i: int| 0 <= i < after.len() && keyed(
        #[trigger] after[i],
        row.channel,
        row.command,
    ) implies i == after.len() - 1 by {
        if i < after.len() - 1 {
            assert(after[i] == without(rows, row.channel, row.command)[i]);
        }
    }
}

/// Uniqueness: of two upserts under one key the second wins. The table is
/// the one that the second upsert alone would have left, a lookup returns
/// the second row, and it is the only row under the key.
pub proof fn law_second_upsert_wins(rows: Seq<CommandView>, first: CommandView, second: CommandView)
    requires
        keyed(second, first.channel, first.command),
    ensures
        upserted(upserted(rows, first), second) == upserted(rows, second),
        get_spec(upserted(upserted(rows, first), second), first.channel, first.command) == Ok::<
            CommandView,
            StoreError,
        >(second),
        forall|i: int|
            0 <= i < upserted(rows, second).len() && keyed(
                #[trigger] upserted(rows, second)[i],
                first.channel,
                first.command,
            ) ==> i == upserted(rows, second).len() - 1,
{
    let channel = first.channel;
    let name = first.command;
    let once = upserted(rows, first);
    assert(once.drop_last() == without(rows, channel, name));
    law_remove_twice(rows, channel, name);
    law_upsert_then_get(rows, second);
}

/// Idempotent removal, first half: removing a key that is not stored leaves
/// the table as it is.
pub proof fn law_remove_absent(rows: Seq<CommandView>, channel: Seq<char>, name: Seq<char>)
    requires
        !present(rows, channel, name),
    ensures
        without(rows, channel, name) == rows,
{
    lemma_without_absent(rows, channel, name);
}

/// Idempotent removal, second half: removing a key twice leaves what
/// removing it once leaves, and the key is gone.
pub proof fn law_remove_twice(rows: Seq<CommandView>, channel: Seq<char>, name: Seq<char>)
    ensures
        !present(without(rows, channel, name), channel, name),
        without(without(rows, channel, name), channel, name) == without(rows, channel, name),
        get_spec(without(rows, channel, name), channel, name) == Err::<CommandView, StoreError>(
            StoreError::NotFound,
        ),
{
    lemma_without_keeps_others(rows, channel, name);
    lemma_without_absent(without(rows, channel, name), channel, name);
}

/// No upsert makes a stored key disappear: a key that is present before an
/// upsert, under the same key or another, is present after it. A replace is
/// one step from a table that holds the old row to one that holds the new;
/// there is no table between them in which the key is missing.
pub proof fn law_upsert_never_hides_a_key(
    rows: Seq<CommandView>,
    row: CommandView,
    channel: Seq<char>,
    name: Seq<char>,
)
    requires
        present(rows, channel, name),
    ensures
        present(upserted(rows, row), channel, name),
{
    let after = upserted(rows, row);
    let kept = without(rows, row.channel, row.command);
    if keyed(row, channel, name) {
        assert(keyed(after[after.len() - 1], channel, name));
    } else {
        lemma_without_keeps_others(rows, row.channel, row.command);
        let i = choose|i: int| 0 <= i < rows.len() && keyed(#[trigger] rows[i], channel, name);
        assert(!keyed(rows[i], row.channel, row.command));
        assert(kept.contains(rows[i]));
        let k = choose|k: int| 0 <= k < kept.len() && kept[k] == rows[i];
        assert(keyed(after[k], channel, name));
    }
}

/// A write under one key does not disturb another: a successful upsert
/// leaves every lookup under a different key as it was.
pub proof fn law_upsert_keeps_other_keys(
    rows: Seq<CommandView>,
    row: CommandView,
    channel: Seq<char>,
    name: Seq<char>,
)
    requires
        unique(rows),
        !id_taken(rows, row),
        !keyed(row, channel, name),
    ensures
        get_spec(upserted(rows, row), channel, name) == get_spec(rows, channel, name),
{
    let after = upserted(rows, row);
    let kept = without(rows, row.channel, row.command);
    lemma_without_keeps_others(rows, row.channel, row.command);
    lemma_upserted_unique(rows, row);
    if present(rows, channel, name) {
        let i = choose|i: int| 0 <= i < rows.len() && keyed(#[trigger] rows[i], channel, name);
        lemma_get_finds(rows, i);
        assert(kept.contains(rows[i]));
        let k = choose|k: int| 0 <= k < kept.len() && kept[k] == rows[i];
        assert(after[k] == rows[i]);
        lemma_get_finds(after, k);
    } else {
        assert forall|k: int| 0 <= k < after.len() implies !keyed(
            #[trigger] after[k],
            channel,
            name,
        ) by {
            if k < kept.len() {
                assert(after[k] == kept[k]);
                assert(rows.contains(kept[k]));
                let j = choose|j: int| 0 <= j < rows.len() && rows[j] == kept[k];
                assert(!keyed(rows[j], channel, name));
            }
        }
    }
}

/// A removal under one key does not disturb another.
pub proof fn law_remove_keeps_other_keys(
    rows: Seq<CommandView>,
    gone_channel: Seq<char>,
    gone_name: Seq<char>,
    channel: Seq<char>,
    name: Seq<char>,
)
    requires
        unique(rows),
        !(gone_channel == channel && gone_name == name),
    ensures
        get_spec(without(rows, gone_channel, gone_name), channel, name) == get_spec(
            rows,
            channel,
            name,
        ),
{
    let kept = without(rows, gone_channel, gone_name);
    lemma_without_keeps_others(rows, gone_channel, gone_name);
    lemma_without_unique(rows, gone_channel, gone_name);
    if present(rows, channel, name) {
        let i = choose|i: int| 0 <= i < rows.len() && keyed(#[trigger] rows[i], channel, name);
        lemma_get_finds(rows, i);
        assert(kept.contains(rows[i]));
        let k = choose|k: int| 0 <= k < kept.len() && kept[k] == rows[i];
        lemma_get_finds(kept, k);
    } else {
        assert forall|k: int| 0 <= k < kept.len() implies !keyed(
            #[trigger] kept[k],
            channel,
            name,
        ) by {
            assert(rows.contains(kept[k]));
            let j = choose|j: int| 0 <= j < rows.len() && rows[j] == kept[k];
            assert(!keyed(rows[j], channel, name));
        }
    }
}

/// A listing never holds more rows than its limit, and only rows of the
/// channel asked for.
pub proof fn law_listing_is_capped(rows: Seq<CommandView>, channel: Seq<char>, limit: nat)
    ensures
        capped(in_channel(rows, channel), limit).len() == if in_channel(rows, channel).len()
            < limit {
            in_channel(rows, channel).len()
        } else {
            limit
        },
        forall|k: int|
            0 <= k < capped(in_channel(rows, channel), limit).len() ==> (#[trigger] capped(
                in_channel(rows, channel),
                limit,
            )[k]).channel == channel,
{
    lemma_in_channel(rows, channel);
}

/// Every row of `in_channel(rows, channel)` belongs to `channel`.
pub proof fn lemma_in_channel(rows: Seq<CommandView>, channel: Seq<char>)
    ensures
        in_channel(rows, channel).len() <= rows.len(),
        forall|k: int|
            0 <= k < in_channel(rows, channel).len() ==> (#[trigger] in_channel(
                rows,
                channel,
            )[k]).channel == channel,
    decreases rows.len(),
{
    if rows.len() > 0 {
        lemma_in_channel(rows.drop_last(), channel);
    }
}

/// A statement that is not refused keeps a table's invariant.
pub proof fn lemma_executed_unique(rows: Seq<CommandView>, statement: StatementView)
    requires
        unique(rows),
    ensures
        executed(rows, statement) matches Ok(next) ==> unique(next),
{
    match statement {
        StatementView::Delete { channel, name } => {
            lemma_without_unique(rows, channel, name);
        },
        StatementView::Insert { row } => {
            if !present(rows, row.channel, row.command) && !id_taken(rows, row) {
                let next = rows.push(row);
                assert forall|i: int, j: int| 0 <= i < j < next.len() implies {
                    &&& !keyed(#[trigger] next[i], (#[trigger] next[j]).channel, next[j].command)
                    &&& next[i].id != next[j].id
                } by {
                    assert(next[i] == rows[i]);
                    if j < rows.len() {
                        assert(next[j] == rows[j]);
                    }
                }
            }
        },
    }
}

/// The replacing transaction does what an upsert is meant to do: with an
/// identifier that no row carries it is never refused and leaves the table
/// with the new row in place of the old.
pub proof fn law_replace_plan_upserts(rows: Seq<CommandView>, row: CommandView)
    requires
        !id_taken(rows, row),
    ensures
        transacted(rows, replace_plan_spec(row)) == Ok::<Seq<CommandView>, StoreError>(
            upserted(rows, row),
        ),
{
    let plan = replace_plan_spec(row);
    let kept = without(rows, row.channel, row.command);
    lemma_without_keeps_others(rows, row.channel, row.command);
    assert(!id_taken(kept, row)) by {
        if id_taken(kept, row) {
            let k = choose|k: int| 0 <= k < kept.len() && (#[trigger] kept[k]).id == row.id;
            assert(rows.contains(kept[k]));
            let i = choose|i: int| 0 <= i < rows.len() && rows[i] == kept[k];
            assert(rows[i].id == row.id);
        }
    }
    assert(plan.skip(1) =~= seq![StatementView::Insert { row }]);
    assert(plan.skip(1).skip(1) =~= Seq::<StatementView>::empty());
    assert(plan.skip(1)[0] == (StatementView::Insert { row }));
    reveal_with_fuel(transacted, 3);
}

/// The removing transaction is never refused and takes the key out.
pub proof fn law_remove_plan_removes(rows: Seq<CommandView>, channel: Seq<char>, name: Seq<char>)
    ensures
        transacted(rows, remove_plan_spec(channel, name)) == Ok::<Seq<CommandView>, StoreError>(
            without(rows, channel, name),
        ),
{
    let plan = remove_plan_spec(channel, name);
    assert(plan.skip(1) =~= Seq::<StatementView>::empty());
    reveal_with_fuel(transacted, 2);
}

/// One write that the table has carried out, whoever asked for it.
pub enum WriteView {
    /// An upsert of `row`.
    Upsert { row: CommandView },
    /// A removal of command `name` of `channel`.
    Remove { channel: Seq<char>, name: Seq<char> },
}

/// The table after one write. An upsert whose identifier is in use is
/// refused and changes nothing.
pub open spec fn written(rows: Seq<CommandView>, write: WriteView) -> Seq<CommandView> {
    match write {
        WriteView::Upsert { row } => if id_taken(rows, row) {
            rows
        } else {
            upserted(rows, row)
        },
        WriteView::Remove { channel, name } => without(rows, channel, name),
    }
}

/// The table after a history of writes, each one step, in the order in which
/// the table carried them out.
pub open spec fn after_writes(rows: Seq<CommandView>, writes: Seq<WriteView>) -> Seq<CommandView>
    decreases writes.len(),
{
    if writes.len() == 0 {
        rows
    } else {
        written(after_writes(rows, writes.drop_last()), writes.last())
    }
}

/// A history of writes keeps a table's invariant.
pub proof fn lemma_after_writes_unique(rows: Seq<CommandView>, writes: Seq<WriteView>)
    requires
        unique(rows),
    ensures
        unique(after_writes(rows, writes)),
    decreases writes.len(),
{
    if writes.len() > 0 {
        lemma_after_writes_unique(rows, writes.drop_last());
        let mid = after_writes(rows, writes.drop_last());
        match writes.last() {
            WriteView::Upsert { row } => {
                if !id_taken(mid, row) {
                    lemma_upserted_unique(mid, row);
                }
            },
            WriteView::Remove { channel, name } => {
                lemma_without_unique(mid, channel, name);
            },
        }
    }
}

/// Isolation ordering. Once a key is stored, a lookup of it never misses
/// for as long as nobody removes it, however the writes of however many
/// writers fall between: the lookup returns the row that was there or the
/// row of one of the upserts under the key. Each write being one step, a
/// lookup comes before it or after it and never sees the key gone.
pub proof fn law_lookup_never_misses(
    rows: Seq<CommandView>,
    writes: Seq<WriteView>,
    channel: Seq<char>,
    name: Seq<char>,
)
    requires
        unique(rows),
        present(rows, channel, name),
        forall|k: int|
            0 <= k < writes.len() ==> #[trigger] writes[k] != (WriteView::Remove { channel, name }),
    ensures
        get_spec(after_writes(rows, writes), channel, name) matches Ok(found) && (get_spec(
            rows,
            channel,
            name,
        ) == Ok::<CommandView, StoreError>(found) || exists|k: int|
            0 <= k < writes.len() && #[trigger] writes[k] == (WriteView::Upsert { row: found })),
    decreases writes.len(),
{
    if writes.len() == 0 {
        let i = choose|i: int| 0 <= i < rows.len() && keyed(#[trigger] rows[i], channel, name);
        lemma_get_finds(rows, i);
    } else {
        let init = writes.drop_last();
        let last = writes[writes.len() - 1];
        assert forall|k: int| 0 <= k < init.len() implies #[trigger] init[k] != (
            WriteView::Remove { channel, name }
        ) by {
            assert(init[k] == writes[k]);
        }
        law_lookup_never_misses(rows, init, channel, name);
        lemma_after_writes_unique(rows, init);
        let mid = after_writes(rows, init);
        let before = get_spec(mid, channel, name)->Ok_0;
        let after = get_spec(after_writes(rows, writes), channel, name);
        assert(writes.last() == last);
        match last {
            WriteView::Upsert { row } => {
                if id_taken(mid, row) {
                } else if keyed(row, channel, name) {
                    law_upsert_then_get(mid, row);
                    assert(writes[writes.len() - 1] == (WriteView::Upsert { row }));
                } else {
                    law_upsert_keeps_other_keys(mid, row, channel, name);
                }
            },
            WriteView::Remove { channel: gone_channel, name: gone_name } => {
                law_remove_keeps_other_keys(mid, gone_channel, gone_name, channel, name);
            },
        }
        if after == Ok::<CommandView, StoreError>(before) && get_spec(rows, channel, name) != Ok::<
            CommandView,
            StoreError,
        >(before) {
            let k = choose|k: int|
                0 <= k < init.len() && #[trigger] init[k] == (WriteView::Upsert { row: before });
            assert(writes[k] == init[k]);
        }
    }
}

/// The rows that a read matches are rows of the table that it asks for, and
/// if the table holds a row that it asks for, the first it matches is the
/// first such row of the table.
pub proof fn lemma_matching(rows: Seq<CommandView>, query: QueryView)
    ensures
        forall|k: int|
            0 <= k < matching(rows, query).len() ==> asked_for(
                #[trigger] matching(rows, query)[k],
                query,
            ) && rows.contains(matching(rows, query)[k]),
        forall|i: int|
            0 <= i < rows.len() && asked_for(#[trigger] rows[i], query) ==> matching(
                rows,
                query,
            ).len() > 0,
    decreases rows.len(),
{
    if rows.len() > 0 {
        let init = rows.drop_last();
        lemma_matching(init, query);
        let found = matching(rows, query);
        let before = matching(init, query);
        assert forall|k: int| 0 <= k < found.len() implies asked_for(#[trigger] found[k], query)
            && rows.contains(found[k]) by {
            if k < before.len() {
                assert(found[k] == before[k]);
                let j = choose|j: int| 0 <= j < init.len() && init[j] == before[k];
                assert(rows[j] == found[k]);
            } else {
                assert(found[k] == rows[rows.len() - 1]);
            }
        }
        assert forall|i: int| 0 <= i < rows.len() && asked_for(#[trigger] rows[i], query) implies found.len()
            > 0 by {
            if i < init.len() {
                assert(init[i] == rows[i]);
            }
        }
    }
}

/// The read behind a listing matches the rows of the channel.
pub proof fn lemma_list_query(rows: Seq<CommandView>, channel: Seq<char>, limit: nat)
    ensures
        matching(rows, list_query_spec(channel, limit)) == in_channel(rows, channel),
    decreases rows.len(),
{
    if rows.len() > 0 {
        lemma_list_query(rows.drop_last(), channel, limit);
    }
}

/// In a table with unique keys, the first row of the read behind a lookup is
/// what the lookup returns.
pub proof fn law_get_query_looks_up(rows: Seq<CommandView>, channel: Seq<char>, name: Seq<char>)
    requires
        unique(rows),
    ensures
        first_spec(queried(rows, get_query_spec(channel, name))) == get_spec(rows, channel, name),
{
    let query = get_query_spec(channel, name);
    let found = matching(rows, query);
    lemma_matching(rows, query);
    if present(rows, channel, name) {
        let i = choose|i: int| 0 <= i < rows.len() && keyed(#[trigger] rows[i], channel, name);
        assert(asked_for(rows[i], query));
        assert(found.len() > 0);
        assert(queried(rows, query)[0] == found[0]);
        assert(rows.contains(found[0]));
        let j = choose|j: int| 0 <= j < rows.len() && rows[j] == found[0];
        assert(keyed(rows[j], channel, name));
        lemma_get_finds(rows, j);
    } else {
        if found.len() > 0 {
            assert(rows.contains(found[0]));
            let j = choose|j: int| 0 <= j < rows.len() && rows[j] == found[0];
            assert(keyed(rows[j], channel, name));
        }
    }
}

} // verus!
