//! The command dispatcher: from one chat message to one decision.
//!
//! The dispatcher never touches the store and never sends anything. It reads
//! the channel, the sender's privilege and the message text, and says what
//! should happen; [`dispatch_spec`] is the whole rule.

use crate::text::{is_word, join_spaced, same_text, split_whitespace, texts, words};
use vstd::prelude::*;

verus! {

/// What a sender is allowed to do in a channel.
#[derive(Debug, Clone, Copy, PartialEq, Eq, Structural)]
pub enum Privilege {
    /// Any viewer.
    Regular,
    /// The broadcaster or a moderator of the channel.
    Elevated,
}

/// The role markers of a sender that matter to the bot.
#[derive(Debug, Clone, Copy, PartialEq, Eq, Structural)]
pub struct Roles {
    pub broadcaster: bool,
    pub moderator: bool,
}

/// The outcome of dispatching one message.
#[derive(Debug, PartialEq, Eq)]
pub enum DispatchDecision {
    /// Nothing to do.
    Ignore,
    /// Create or replace the command `name` of `channel`.
    AdminAdd { channel: String, name: String, value: String },
    /// Delete the command `name` of `channel`.
    AdminRemove { channel: String, name: String },
    /// Answer the liveness probe.
    AdminPing,
    /// Look `name` up in the store; the reply depends on what is found.
    Lookup { channel: String, name: String },
    /// Say `text` in `channel`: a user-defined command that was found.
    UserReply { channel: String, text: String },
    /// Tell an elevated sender what went wrong.
    AdminError { channel: String, message: String },
}

/// [`DispatchDecision`] over mathematical text.
pub enum DecisionView {
    Ignore,
    AdminAdd { channel: Seq<char>, name: Seq<char>, value: Seq<char> },
    AdminRemove { channel: Seq<char>, name: Seq<char> },
    AdminPing,
    Lookup { channel: Seq<char>, name: Seq<char> },
    UserReply { channel: Seq<char>, text: Seq<char> },
    AdminError { channel: Seq<char>, message: Seq<char> },
}

impl View for DispatchDecision {
    type V = DecisionView;

    open spec fn view(&self) -> DecisionView {
        match self {
            DispatchDecision::Ignore => DecisionView::Ignore,
            DispatchDecision::AdminAdd { channel, name, value } => DecisionView::AdminAdd {
                channel: channel@,
                name: name@,
                value: value@,
            },
            DispatchDecision::AdminRemove { channel, name } => DecisionView::AdminRemove {
                channel: channel@,
                name: name@,
            },
            DispatchDecision::AdminPing => DecisionView::AdminPing,
            DispatchDecision::Lookup { channel, name } => DecisionView::Lookup {
                channel: channel@,
                name: name@,
            },
            DispatchDecision::UserReply { channel, text } => DecisionView::UserReply {
                channel: channel@,
                text: text@,
            },
            DispatchDecision::AdminError { channel, message } => DecisionView::AdminError {
                channel: channel@,
                message: message@,
            },
        }
    }
}

/// The character that marks a message as a command invocation.
pub open spec fn trigger() -> char {
    '!'
}

/// The reserved keyword under which the administrative commands live.
pub open spec fn admin_keyword() -> Seq<char> {
    "v"@
}

/// The administrative sub-action that manages stored commands.
pub open spec fn command_keyword() -> Seq<char> {
    "command"@
}

/// The administrative sub-action that probes the bot.
pub open spec fn ping_keyword() -> Seq<char> {
    "ping"@
}

/// The sub-action of `command` that stores a command.
pub open spec fn add_keyword() -> Seq<char> {
    "add"@
}

/// The sub-action of `command` that deletes a command.
pub open spec fn remove_keyword() -> Seq<char> {
    "remove"@
}

/// The reply to an `add` that lacks a name or a value.
pub open spec fn add_usage() -> Seq<char> {
    "Command missing arguments. Usage: !v command add <name> <value>"@
}

/// The reply to a `remove` that lacks a name.
pub open spec fn remove_usage() -> Seq<char> {
    "Command missing arguments. Usage: !v command remove <name>"@
}

impl Roles {
    /// Elevated if and only if one of the two markers is present.
    pub open spec fn privilege_spec(self) -> Privilege {
        if self.broadcaster || self.moderator {
            Privilege::Elevated
        } else {
            Privilege::Regular
        }
    }

    /// The privilege that these roles grant.
    pub fn privilege(&self) -> (p: Privilege)
        ensures
            p == self.privilege_spec(),
    {
        if self.broadcaster || self.moderator {
            Privilege::Elevated
        } else {
            Privilege::Regular
        }
    }
}

/// The decision on an `add` whose arguments are `args`: the first is the
/// name, the rest, rejoined with single spaces, is the value.
pub open spec fn add_spec(channel: Seq<char>, args: Seq<Seq<char>>) -> DecisionView {
    if args.len() >= 2 {
        DecisionView::AdminAdd { channel, name: args[0], value: join_spaced(args.skip(1)) }
    } else {
        DecisionView::AdminError { channel, message: add_usage() }
    }
}

/// The decision on a `remove` whose arguments are `args`: the first is the
/// name, anything after it is not read.
pub open spec fn remove_spec(channel: Seq<char>, args: Seq<Seq<char>>) -> DecisionView {
    if args.len() >= 1 {
        DecisionView::AdminRemove { channel, name: args[0] }
    } else {
        DecisionView::AdminError { channel, message: remove_usage() }
    }
}

/// The decision on an invocation whose words, trigger removed, are `words`.
pub open spec fn decide_spec(
    channel: Seq<char>,
    sender: Privilege,
    words: Seq<Seq<char>>,
) -> DecisionView {
    if words.len() == 0 {
        DecisionView::Ignore
    } else if words[0] != admin_keyword() {
        DecisionView::Lookup { channel, name: words[0] }
    } else if sender != Privilege::Elevated {
        DecisionView::Ignore
    } else if words.len() >= 2 && words[1] == ping_keyword() {
        DecisionView::AdminPing
    } else if words.len() >= 3 && words[1] == command_keyword() && words[2] == add_keyword() {
        add_spec(channel, words.skip(3))
    } else if words.len() >= 3 && words[1] == command_keyword() && words[2] == remove_keyword() {
        remove_spec(channel, words.skip(3))
    } else {
        DecisionView::Ignore
    }
}

/// The decision on the message `text` sent to `channel` by a sender with
/// privilege `sender`.
pub open spec fn dispatch_spec(channel: Seq<char>, sender: Privilege, text: Seq<char>) -> DecisionView {
    if text.len() == 0 || text[0] != trigger() {
        DecisionView::Ignore
    } else {
        decide_spec(channel, sender, split_whitespace(text.skip(1)))
    }
}

/// Decides on an invocation that has already been split into words.
pub fn decide(channel: &str, sender: Privilege, words: &[String]) -> (decision: DispatchDecision)
    ensures
        decision@ == decide_spec(channel@, sender, texts(words@)),
{
    let n = words.len();
    if n == 0 {
        return DispatchDecision::Ignore;
    }
    if !same_text(words[0].as_str(), "v") {
        return DispatchDecision::Lookup { channel: channel.to_owned(), name: words[0].clone() };
    }
    match sender {
        Privilege::Regular => {
            return DispatchDecision::Ignore;
        },
        Privilege::Elevated => {},
    }
    if n < 2 {
        return DispatchDecision::Ignore;
    }
    if same_text(words[1].as_str(), "ping") {
        return DispatchDecision::AdminPing;
    }
    if n < 3 || !same_text(words[1].as_str(), "command") {
        return DispatchDecision::Ignore;
    }
    let args = &words[3..n];
    assert(texts(args@) == texts(words@).skip(3));
    if same_text(words[2].as_str(), "add") {
        crate::twitch::add(channel.to_owned(), args)
    } else if same_text(words[2].as_str(), "remove") {
        crate::twitch::remove(channel.to_owned(), args)
    } else {
        DispatchDecision::Ignore
    }
}

/// Decides what to do with the message `text`, sent to `channel` by a sender
/// with privilege `sender`.
pub fn dispatch(channel: &str, sender: Privilege, text: &str) -> (decision: DispatchDecision)
    ensures
        decision@ == dispatch_spec(channel@, sender, text@),
{
    let n = text.unicode_len();
    if n == 0 || text.get_char(0) != '!' {
        return DispatchDecision::Ignore;
    }
    let found = words(text.substring_char(1, n));
    assert(text@.subrange(1, n as int) == text@.skip(1));
    decide(channel, sender, found.as_slice())
}

/// A regular sender never gets an administrative decision, whatever the
/// text: only `Ignore` or a lookup can come out.
pub proof fn law_regular_sender_sees_no_admin(channel: Seq<char>, text: Seq<char>)
    ensures
        dispatch_spec(channel, Privilege::Regular, text) is Ignore || dispatch_spec(
            channel,
            Privilege::Regular,
            text,
        ) is Lookup,
{
}

/// What a regular sender gets for a text, an elevated sender gets too, unless
/// the text invokes the administrative keyword.
pub proof fn law_privilege_matters_only_for_admin(channel: Seq<char>, text: Seq<char>)
    requires
        !(dispatch_spec(channel, Privilege::Regular, text) is Ignore),
    ensures
        dispatch_spec(channel, Privilege::Elevated, text) == dispatch_spec(
            channel,
            Privilege::Regular,
            text,
        ),
{
}

/// The three keywords of an `add` are words, and `command` is not `ping`.
proof fn lemma_keywords_are_words()
    ensures
        is_word(admin_keyword()),
        is_word(command_keyword()),
        is_word(add_keyword()),
        command_keyword() != ping_keyword(),
{
    reveal_strlit("v");
    reveal_strlit("command");
    reveal_strlit("add");
    reveal_strlit("ping");
    assert(command_keyword().len() != ping_keyword().len());
}

/// An `add` is parsed back as it was written: from an elevated sender, the
/// trigger followed by the three keywords, a name and a value of one or more
/// words, all separated by single spaces, yields the decision to store the
/// value, its words joined by single spaces, under that name.
pub proof fn law_add_is_parsed(channel: Seq<char>, name: Seq<char>, value: Seq<Seq<char>>)
    requires
        is_word(name),
        value.len() >= 1,
        forall|k: int| 0 <= k < value.len() ==> is_word(#[trigger] value[k]),
    ensures
        dispatch_spec(
            channel,
            Privilege::Elevated,
            seq![trigger()] + join_spaced(
                seq![admin_keyword(), command_keyword(), add_keyword(), name] + value,
            ),
        ) == (DecisionView::AdminAdd { channel, name, value: join_spaced(value) }),
{
    let written = seq![admin_keyword(), command_keyword(), add_keyword(), name] + value;
    let text = seq![trigger()] + join_spaced(written);
    lemma_keywords_are_words();
    assert forall|k: int| 0 <= k < written.len() implies is_word(#[trigger] written[k]) by {
        if k >= 4 {
            assert(written[k] == value[k - 4]);
        }
    }
    crate::text::law_split_inverts_join(written);
    assert(text.skip(1) =~= join_spaced(written));
    assert(written.skip(3) =~= seq![name] + value);
    assert((seq![name] + value).skip(1) =~= value);
}

} // verus!
