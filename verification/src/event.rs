//! Inbound frames and the chat events they stand for.
//!
//! A raw line of the protocol is read by the protocol library, typed if it is
//! a chat message or a probe, reduced to a [`Frame`] that holds only what the
//! bot reads, and turned into a [`ChatEvent`]. The sender's badges become a
//! [`Privilege`] on the way. Lines of other commands are not typed. A line
//! that the protocol library has no room for never reaches it: it is a
//! protocol error like any line that cannot be read.

use crate::dispatch::{Privilege, Roles};
use crate::text::{same_text, texts};
use vstd::prelude::*;
use vstd::utf8::encode_utf8;

verus! {

/// One inbound frame, reduced to what the bot reads of it.
#[derive(Debug, PartialEq, Eq)]
pub enum Frame {
    /// A chat message: the channel, the names of the sender's badges and the
    /// text.
    Privmsg { channel: String, badges: Vec<String>, text: String },
    /// The server asks the client to connect anew.
    Reconnect,
    /// The server probes the client; `nonce` is what it sent along.
    Ping { nonce: Option<String> },
    /// A line of any other command.
    Other,
}

/// [`Frame`] over mathematical text.
pub enum FrameView {
    Privmsg { channel: Seq<char>, badges: Seq<Seq<char>>, text: Seq<char> },
    Reconnect,
    Ping { nonce: Option<Seq<char>> },
    Other,
}

/// The text held by an optional string.
pub open spec fn optional_text(text: Option<String>) -> Option<Seq<char>> {
    match text {
        Some(s) => Some(s@),
        None => None,
    }
}

impl View for Frame {
    type V = FrameView;

    open spec fn view(&self) -> FrameView {
        match self {
            Frame::Privmsg { channel, badges, text } => FrameView::Privmsg {
                channel: channel@,
                badges: texts(badges@),
                text: text@,
            },
            Frame::Reconnect => FrameView::Reconnect,
            Frame::Ping { nonce } => FrameView::Ping { nonce: optional_text(*nonce) },
            Frame::Other => FrameView::Other,
        }
    }
}

/// A typed chat event.
#[derive(Debug, PartialEq, Eq)]
pub enum ChatEvent {
    /// Somebody said `text` in `channel`.
    Message { channel: String, sender: Privilege, text: String },
    /// The server asks the client to connect anew.
    Reconnect,
    /// The server probes the client.
    Keepalive { nonce: Option<String> },
    /// Anything the bot has no use for.
    Other,
}

/// [`ChatEvent`] over mathematical text.
pub enum ChatEventView {
    Message { channel: Seq<char>, sender: Privilege, text: Seq<char> },
    Reconnect,
    Keepalive { nonce: Option<Seq<char>> },
    Other,
}

impl View for ChatEvent {
    type V = ChatEventView;

    open spec fn view(&self) -> ChatEventView {
        match self {
            ChatEvent::Message { channel, sender, text } => ChatEventView::Message {
                channel: channel@,
                sender: *sender,
                text: text@,
            },
            ChatEvent::Reconnect => ChatEventView::Reconnect,
            ChatEvent::Keepalive { nonce } => ChatEventView::Keepalive {
                nonce: optional_text(*nonce),
            },
            ChatEvent::Other => ChatEventView::Other,
        }
    }
}

/// What went wrong on the session's side.
#[derive(Debug, Clone, Copy, PartialEq, Eq, Structural)]
pub enum SessionError {
    /// An inbound frame could not be read as a message of the protocol.
    Protocol,
    /// The connection failed.
    Transport,
}

/// The badge that marks the owner of a channel.
pub open spec fn broadcaster_badge() -> Seq<char> {
    "broadcaster"@
}

/// The badge that marks a moderator of a channel.
pub open spec fn moderator_badge() -> Seq<char> {
    "moderator"@
}

/// The roles that a set of badge names shows.
pub open spec fn roles_spec(badges: Seq<Seq<char>>) -> Roles {
    Roles {
        broadcaster: badges.contains(broadcaster_badge()),
        moderator: badges.contains(moderator_badge()),
    }
}

/// The event that a frame stands for; no frame, no event.
pub open spec fn event_of(frame: Option<FrameView>) -> Result<ChatEventView, SessionError> {
    match frame {
        None => Err(SessionError::Protocol),
        Some(FrameView::Privmsg { channel, badges, text }) => Ok(
            ChatEventView::Message { channel, sender: roles_spec(badges).privilege_spec(), text },
        ),
        Some(FrameView::Reconnect) => Ok(ChatEventView::Reconnect),
        Some(FrameView::Ping { nonce }) => Ok(ChatEventView::Keepalive { nonce }),
        Some(FrameView::Other) => Ok(ChatEventView::Other),
    }
}

/// The view of an optional frame.
pub open spec fn frame_view(frame: Option<Frame>) -> Option<FrameView> {
    match frame {
        Some(f) => Some(f@),
        None => None,
    }
}

/// The number of tag pairs that the protocol library has room for.
pub const TAG_ROOM: usize = 128;

/// One more than the longest key or value of a tag that the protocol library
/// can measure.
pub const TAG_SPAN: usize = 0x1_0000;

/// The longest line that the protocol library can measure.
pub const LINE_SPAN: usize = 0xffff_ffff;

/// The position of the first space of `bytes` at or behind `from`; the length
/// of `bytes` if there is none.
pub open spec fn first_space(bytes: Seq<u8>, from: int) -> int
    decreases bytes.len() - from,
{
    if from < 0 || from >= bytes.len() {
        bytes.len() as int
    } else if bytes[from] == 0x20 {
        from
    } else {
        first_space(bytes, from + 1)
    }
}

/// Whether a line has tags: it opens with `@` and holds a space.
pub open spec fn has_tags(bytes: Seq<u8>) -> bool {
    bytes.len() > 0 && bytes[0] == 0x40 && first_space(bytes, 1) < bytes.len()
}

/// The tags of a line that has them: what stands between the `@` and the
/// first space.
pub open spec fn tags_of(bytes: Seq<u8>) -> Seq<u8> {
    bytes.subrange(1, first_space(bytes, 1))
}

/// Where the reading of tags stands.
pub struct TagScan {
    /// Whether a value is being read; otherwise a key.
    pub in_value: bool,
    /// How long the key or value being read is so far.
    pub run: nat,
    /// How many pairs have been opened.
    pub pairs: nat,
    /// Whether every key and every value that has ended could be measured.
    pub measured: bool,
}

/// Where the reading stands after `tags`, read as the protocol library
/// reads them. A key runs up to the first `=`, which opens a pair; the value
/// runs from there up to the next `;`, which closes the pair, or to the end.
/// A `;` within a key and an `=` within a value are part of it.
pub open spec fn scan(tags: Seq<u8>) -> TagScan
    decreases tags.len(),
{
    if tags.len() == 0 {
        TagScan { in_value: false, run: 0, pairs: 0, measured: true }
    } else {
        let before = scan(tags.drop_last());
        if !before.in_value && tags.last() == 0x3d {
            TagScan {
                in_value: true,
                run: 0,
                pairs: before.pairs + 1,
                measured: before.measured && before.run < TAG_SPAN,
            }
        } else if before.in_value && tags.last() == 0x3b {
            TagScan {
                in_value: false,
                run: 0,
                pairs: before.pairs,
                measured: before.measured && before.run < TAG_SPAN,
            }
        } else {
            TagScan {
                in_value: before.in_value,
                run: before.run + 1,
                pairs: before.pairs,
                measured: before.measured,
            }
        }
    }
}

/// Whether the protocol library has room for the line `bytes`: the line is
/// no longer than [`LINE_SPAN`], and its tags, if it has any, open at most
/// [`TAG_ROOM`] pairs, the key and the value of each shorter than
/// [`TAG_SPAN`].
pub open spec fn fits(bytes: Seq<u8>) -> bool {
    &&& bytes.len() <= LINE_SPAN
    &&& has_tags(bytes) ==> {
        let end = scan(tags_of(bytes));
        &&& end.measured
        &&& end.pairs <= TAG_ROOM
        &&& end.in_value ==> end.run < TAG_SPAN
    }
}

/// Whether the line `raw`, as it goes over the wire, can be handed to the
/// protocol library.
pub open spec fn readable(raw: Seq<char>) -> bool {
    fits(encode_utf8(raw))
}

/// The kinds of line that the bot tells apart.
#[derive(Debug, Clone, Copy, PartialEq, Eq, Structural)]
pub enum Kind {
    /// A chat message.
    Privmsg,
    /// The server's request to connect anew.
    Reconnect,
    /// The server's probe.
    Ping,
    /// Any other command.
    Other,
}

/// The kind of command that `tmi::IrcMessageRef::parse` finds in the raw
/// line `raw`; `None` where it rejects the line.
pub uninterp spec fn line_kind(raw: Seq<char>) -> Option<Kind>;

/// What `tmi::Privmsg::from_irc` makes of the raw line `raw`: the channel,
/// the names of the sender's badges and the text; `None` where it rejects
/// the line.
pub uninterp spec fn typed_privmsg(raw: Seq<char>) -> Option<
    (Seq<char>, Seq<Seq<char>>, Seq<char>),
>;

/// What `tmi::Ping::from_irc` makes of the raw line `raw`: the nonce, if the
/// probe has one; `None` where it rejects the line.
pub uninterp spec fn typed_ping(raw: Seq<char>) -> Option<Option<Seq<char>>>;

/// The frame that a raw line holds. Only a chat message and a probe are
/// typed; a request to reconnect needs no typing, and a line of any other
/// command is taken as it is.
pub open spec fn framed(raw: Seq<char>) -> Option<FrameView> {
    match line_kind(raw) {
        None => None,
        Some(Kind::Privmsg) => match typed_privmsg(raw) {
            Some((channel, badges, text)) => Some(FrameView::Privmsg { channel, badges, text }),
            None => None,
        },
        Some(Kind::Ping) => match typed_ping(raw) {
            Some(nonce) => Some(FrameView::Ping { nonce }),
            None => None,
        },
        Some(Kind::Reconnect) => Some(FrameView::Reconnect),
        Some(Kind::Other) => Some(FrameView::Other),
    }
}

/// The event that a raw line stands for: a line that the protocol library
/// has no room for is a protocol error, and so is one that it rejects.
pub open spec fn decoded(raw: Seq<char>) -> Result<ChatEventView, SessionError> {
    if readable(raw) {
        event_of(framed(raw))
    } else {
        Err(SessionError::Protocol)
    }
}

/// The view of what was copied out of a chat message.
pub open spec fn said_view(said: Option<(String, Vec<String>, String)>) -> Option<
    (Seq<char>, Seq<Seq<char>>, Seq<char>),
> {
    match said {
        Some((channel, badges, text)) => Some((channel@, texts(badges@), text@)),
        None => None,
    }
}

/// The view of what was copied out of a probe.
pub open spec fn probe_view(probe: Option<Option<String>>) -> Option<Option<Seq<char>>> {
    match probe {
        Some(nonce) => Some(optional_text(nonce)),
        None => None,
    }
}

/// Reads the sender's roles off the names of their badges.
pub fn roles_of(badges: &[String]) -> (roles: Roles)
    ensures
        roles == roles_spec(texts(badges@)),
{
    let mut roles = Roles { broadcaster: false, moderator: false };
    let mut i: usize = 0;
    let ghost names = texts(badges@);
    while i < badges.len()
        invariant
            i <= badges.len(),
            names == texts(badges@),
            roles.broadcaster == names.take(i as int).contains(broadcaster_badge()),
            roles.moderator == names.take(i as int).contains(moderator_badge()),
        decreases badges.len() - i,
    {
        let ghost seen = names.take(i as int);
        let ghost next = names.take(i + 1);
        assert(next == seen.push(names[i as int]));
        assert forall|name: Seq<char>| next.contains(name) == (seen.contains(name) || name
            == names[i as int]) by {
            if seen.contains(name) {
                let k = choose|k: int| 0 <= k < seen.len() && seen[k] == name;
                assert(next[k] == name);
            }
            if name == names[i as int] {
                assert(next[i as int] == name);
            }
        }
        if same_text(badges[i].as_str(), "broadcaster") {
            roles.broadcaster = true;
        }
        if same_text(badges[i].as_str(), "moderator") {
            roles.moderator = true;
        }
        i += 1;
    }
    assert(names.take(badges.len() as int) == names);
    roles
}

/// Turns what the protocol library made of a frame into a chat event: a
/// message gets its sender's privilege from the badges, a ping becomes a
/// keepalive, and a frame that could not be typed is a protocol error.
pub fn interpret(frame: Option<Frame>) -> (r: Result<ChatEvent, SessionError>)
    ensures
        match r {
            Ok(event) => event_of(frame_view(frame)) == Ok::<ChatEventView, SessionError>(event@),
            Err(e) => event_of(frame_view(frame)) == Err::<ChatEventView, SessionError>(e),
        },
{
    match frame {
        None => Err(SessionError::Protocol),
        Some(Frame::Privmsg { channel, badges, text }) => {
            let sender = roles_of(badges.as_slice()).privilege();
            Ok(ChatEvent::Message { channel, sender, text })
        },
        Some(Frame::Reconnect) => Ok(ChatEvent::Reconnect),
        Some(Frame::Ping { nonce }) => Ok(ChatEvent::Keepalive { nonce }),
        Some(Frame::Other) => Ok(ChatEvent::Other),
    }
}

/// Finds the command of one raw line with `tmi::IrcMessageRef::parse` and
/// `IrcMessageRef::command`, and tells the three commands that the bot reads
/// from all others. A line that the parser rejects gives `None`. Nothing is
/// proved of the parser: the contract only names its result, which depends
/// on the line alone. The parser keeps the tag pairs of a line in 128 slots,
/// the length of each key and value in 16 bits and positions in the line in
/// 32 bits, and goes wrong beyond that: such lines are left out.
#[verifier::external_body]
fn parse_kind(raw: &str) -> (kind: Option<Kind>)
    requires
        readable(raw@),
    ensures
        kind == line_kind(raw@),
{
    match tmi::IrcMessageRef::parse(raw)?.command() {
        tmi::Command::Privmsg => Some(Kind::Privmsg),
        tmi::Command::Reconnect => Some(Kind::Reconnect),
        tmi::Command::Ping => Some(Kind::Ping),
        _ => Some(Kind::Other),
    }
}

/// Types one raw line as a chat message with `tmi::Privmsg::from_irc` on
/// what `tmi::IrcMessageRef::parse` made of it, and copies out the channel,
/// the name of each badge as `Badge::as_badge_data` gives it, and the text.
/// A line that either rejects gives `None`. The contract only names the
/// result, which depends on the line alone; lines that the parser has no
/// room for are left out.
#[verifier::external_body]
fn parse_privmsg(raw: &str) -> (said: Option<(String, Vec<String>, String)>)
    requires
        readable(raw@),
    ensures
        said_view(said) == typed_privmsg(raw@),
{
    let m = <tmi::Privmsg as tmi::FromIrc>::from_irc(tmi::IrcMessageRef::parse(raw)?).ok()?;
    Some((
        m.channel().to_string(),
        m.badges().map(|b| b.as_badge_data().name().to_string()).collect(),
        m.text().to_string(),
    ))
}

/// Types one raw line as a probe with `tmi::Ping::from_irc` on what
/// `tmi::IrcMessageRef::parse` made of it, and copies out the nonce. A line
/// that either rejects gives `None`. The contract only names the result,
/// which depends on the line alone; lines that the parser has no room for
/// are left out.
#[verifier::external_body]
fn parse_ping(raw: &str) -> (probe: Option<Option<String>>)
    requires
        readable(raw@),
    ensures
        probe_view(probe) == typed_ping(raw@),
{
    let p = <tmi::Ping as tmi::FromIrc>::from_irc(tmi::IrcMessageRef::parse(raw)?).ok()?;
    Some(p.nonce().map(str::to_string))
}

/// Decides [`readable`].
pub fn is_readable(raw: &str) -> (ok: bool)
    ensures
        ok == readable(raw@),
{
    let bytes = raw.as_bytes();
    let n = bytes.len();
    if n > LINE_SPAN {
        return false;
    }
    if n == 0 || bytes[0] != 0x40 {
        return true;
    }
    let mut i: usize = 1;
    let mut in_value = false;
    let mut run: usize = 0;
    let mut pairs: usize = 0;
    let mut measured = true;
    assert(bytes@.subrange(1, 1) =~= Seq::<u8>::empty());
    while i < n && bytes[i] != 0x20
        invariant
            1 <= i <= n,
            n == bytes@.len(),
            run <= i,
            pairs <= i,
            first_space(bytes@, 1) == first_space(bytes@, i as int),
            scan(bytes@.subrange(1, i as int)) == (TagScan {
                in_value,
                run: run as nat,
                pairs: pairs as nat,
                measured,
            }),
        decreases n - i,
    {
        assert(bytes@.subrange(1, i + 1).drop_last() =~= bytes@.subrange(1, i as int));
        let byte = bytes[i];
        if !in_value && byte == 0x3d {
            measured = measured && run < TAG_SPAN;
            in_value = true;
            run = 0;
            pairs += 1;
        } else if in_value && byte == 0x3b {
            measured = measured && run < TAG_SPAN;
            in_value = false;
            run = 0;
        } else {
            run += 1;
        }
        i += 1;
    }
    i == n || (measured && pairs <= TAG_ROOM && (!in_value || run < TAG_SPAN))
}

/// Reads the frame that a raw line holds: finds its kind and types it if it
/// is of a kind that the bot reads.
fn read_frame(raw: &str) -> (frame: Option<Frame>)
    requires
        readable(raw@),
    ensures
        frame_view(frame) == framed(raw@),
{
    match parse_kind(raw) {
        None => None,
        Some(Kind::Privmsg) => match parse_privmsg(raw) {
            Some((channel, badges, text)) => Some(Frame::Privmsg { channel, badges, text }),
            None => None,
        },
        Some(Kind::Ping) => match parse_ping(raw) {
            Some(nonce) => Some(Frame::Ping { nonce }),
            None => None,
        },
        Some(Kind::Reconnect) => Some(Frame::Reconnect),
        Some(Kind::Other) => Some(Frame::Other),
    }
}

/// Decodes one raw line of the protocol into a chat event.
pub fn decode(raw: &str) -> (r: Result<ChatEvent, SessionError>)
    ensures
        match r {
            Ok(event) => decoded(raw@) == Ok::<ChatEventView, SessionError>(event@),
            Err(e) => decoded(raw@) == Err::<ChatEventView, SessionError>(e),
        },
{
    if !is_readable(raw) {
        return Err(SessionError::Protocol);
    }
    interpret(read_frame(raw))
}

} // verus!
