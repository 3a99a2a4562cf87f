//! The listing of a channel's commands, as it is handed out to readers.
//!
//! A listing is a bounded read of the table: at most [`LISTING_CAP`] commands
//! of one channel, each with its identifier written out. A table that cannot
//! be read gives an empty listing, never a failure.

use crate::command::{rows_of, Command, CommandStore, CommandView, StoreError};
use crate::table::{capped, in_channel};
use vstd::prelude::*;

verus! {

/// The most commands that a listing holds.
pub const LISTING_CAP: usize = 10;

/// One command of a listing.
#[derive(Debug, PartialEq, Eq)]
pub struct RespCommand {
    pub id: String,
    pub channel: String,
    pub command: String,
    pub value: String,
}

/// A listing.
#[derive(Debug, PartialEq, Eq)]
pub struct RespCommands {
    pub commands: Vec<RespCommand>,
}

/// [`RespCommand`] over mathematical text.
pub struct RespCommandView {
    pub id: Seq<char>,
    pub channel: Seq<char>,
    pub command: Seq<char>,
    pub value: Seq<char>,
}

impl View for RespCommand {
    type V = RespCommandView;

    open spec fn view(&self) -> RespCommandView {
        RespCommandView {
            id: self.id@,
            channel: self.channel@,
            command: self.command@,
            value: self.value@,
        }
    }
}

impl View for RespCommands {
    type V = Seq<RespCommandView>;

    open spec fn view(&self) -> Seq<RespCommandView> {
        Seq::new(self.commands@.len(), |i: int| self.commands@[i]@)
    }
}

/// The character that marks a channel name.
pub open spec fn channel_marker() -> char {
    '#'
}

/// The key under which the commands of the channel named `name` are stored:
/// the name behind the channel marker.
pub open spec fn channel_key(name: Seq<char>) -> Seq<char> {
    seq![channel_marker()] + name
}

/// The lower-case hexadecimal digit of `n`, for `n` below 16.
pub open spec fn hex_digit(n: u128) -> char {
    seq![
        '0',
        '1',
        '2',
        '3',
        '4',
        '5',
        '6',
        '7',
        '8',
        '9',
        'a',
        'b',
        'c',
        'd',
        'e',
        'f',
    ][n as int]
}

/// The character at position `at` of the hyphenated form of `id`: a hyphen at
/// positions 8, 13, 18 and 23, elsewhere the next hexadecimal digit of `id`,
/// most significant first.
pub open spec fn hyphenated_char(id: u128, at: int) -> char {
    if at == 8 || at == 13 || at == 18 || at == 23 {
        '-'
    } else {
        let digit = if at < 8 {
            at
        } else if at < 13 {
            at - 1
        } else if at < 18 {
            at - 2
        } else if at < 23 {
            at - 3
        } else {
            at - 4
        };
        hex_digit((id >> ((4 * (31 - digit)) as u128)) & 0xf)
    }
}

/// The hyphenated form of `id`: 32 lower-case hexadecimal digits in groups of
/// 8, 4, 4, 4 and 12.
pub open spec fn hyphenated(id: u128) -> Seq<char> {
    Seq::new(36, |at: int| hyphenated_char(id, at))
}

/// How a stored command is shown in a listing.
pub open spec fn shown(row: CommandView) -> RespCommandView {
    RespCommandView {
        id: hyphenated(row.id),
        channel: row.channel,
        command: row.command,
        value: row.value,
    }
}

/// The listing made of what a read of the table brought back: the first
/// [`LISTING_CAP`] rows, shown; nothing if the read failed.
pub open spec fn listing(read: Result<Seq<CommandView>, StoreError>) -> Seq<RespCommandView> {
    match read {
        Ok(rows) => {
            let kept = capped(rows, LISTING_CAP as nat);
            Seq::new(kept.len(), |i: int| shown(kept[i]))
        },
        Err(_) => Seq::empty(),
    }
}

/// The rows that a read brought back, if it brought any.
pub open spec fn read_view(read: Result<Vec<Command>, StoreError>) -> Result<
    Seq<CommandView>,
    StoreError,
> {
    match read {
        Ok(rows) => Ok(rows_of(rows@)),
        Err(e) => Err(e),
    }
}

/// Writes `id` out as `uuid::Uuid` displays it: `Uuid::from_u128` takes the
/// number as the sixteen bytes of the identifier, most significant first, and
/// its `Display` is the hyphenated lower-case form.
#[verifier::external_body]
fn id_text(id: u128) -> (text: String)
    ensures
        text@ == hyphenated(id),
{
    uuid::Uuid::from_u128(id).to_string()
}

/// The store key of the channel named `name`.
pub fn channel_key_of(name: &str) -> (key: String)
    ensures
        key@ == channel_key(name@),
{
    proof {
        reveal_strlit("#");
    }
    let key = "#".to_owned().concat(name);
    assert(key@ =~= channel_key(name@));
    key
}

/// Shows one stored command.
pub fn show(row: &Command) -> (entry: RespCommand)
    ensures
        entry@ == shown(row@),
{
    RespCommand {
        id: id_text(row.id),
        channel: row.channel.clone(),
        command: row.command.clone(),
        value: row.value.clone(),
    }
}

/// Makes the listing of what a read of the table brought back.
pub fn respond(read: Result<Vec<Command>, StoreError>) -> (response: RespCommands)
    ensures
        response@ == listing(read_view(read)),
{
    let mut commands: Vec<RespCommand> = Vec::new();
    match read {
        Ok(rows) => {
            let ghost all = rows_of(rows@);
            let ghost kept = capped(all, LISTING_CAP as nat);
            let mut i: usize = 0;
            while i < rows.len() && i < LISTING_CAP
                invariant
                    i <= rows.len(),
                    i <= LISTING_CAP,
                    all == rows_of(rows@),
                    kept == capped(all, LISTING_CAP as nat),
                    commands@.len() == i,
                    forall|k: int| 0 <= k < i ==> (#[trigger] commands@[k])@ == shown(kept[k]),
                decreases rows.len() - i,
            {
                commands.push(show(&rows[i]));
                i += 1;
            }
            let response = RespCommands { commands };
            assert(response@ =~= listing(read_view(read)));
            response
        },
        Err(_) => {
            let response = RespCommands { commands };
            assert(response@ =~= listing(read_view(read)));
            response
        },
    }
}

/// The listing of the channel named `channel`: the first [`LISTING_CAP`]
/// commands stored under its key, in the order they were written.
pub fn list_commands(store: &CommandStore, channel: &str) -> (response: RespCommands)
    ensures
        response@ == listing(Ok(in_channel(store@, channel_key(channel@)))),
        response@.len() <= LISTING_CAP,
{
    let key = channel_key_of(channel);
    let read = crate::command::list(store, key.as_str(), LISTING_CAP);
    let ghost all = in_channel(store@, key@);
    assert(capped(capped(all, LISTING_CAP as nat), LISTING_CAP as nat) == capped(
        all,
        LISTING_CAP as nat,
    ));
    respond(read)
}

/// The listing cap: a listing holds as many entries as the read brought rows,
/// but never more than [`LISTING_CAP`]; a failed read gives none.
pub proof fn law_listing_cap(read: Result<Seq<CommandView>, StoreError>)
    ensures
        listing(read).len() <= LISTING_CAP,
        read matches Ok(rows) ==> listing(read).len() == if rows.len() < LISTING_CAP {
            rows.len()
        } else {
            LISTING_CAP as nat
        },
        read is Err ==> listing(read).len() == 0,
{
}

} // verus!
