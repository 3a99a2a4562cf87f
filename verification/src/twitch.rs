//! The chat session: what the bot does with each event.
//!
//! The session is a state machine. [`VuekoTwitch::step`] takes one event and
//! answers with the actions to carry out, in order; whoever owns the
//! connection and the table carries them out and reports back. Nothing here
//! blocks, sends or stores, except on a [`CommandStore`] that the caller
//! hands in.

use crate::command::{
    is_v7, lemma_v7_exists, Command, CommandStore, CommandView, StoreError,
};
use crate::table::{get_spec, id_taken, row_of, upserted, without};
use crate::config::{ConfigView, VuekoConfig};
use crate::dispatch::{
    add_spec, dispatch, dispatch_spec, remove_spec, DecisionView, DispatchDecision, Privilege,
};
use crate::event::{
    decode, decoded, optional_text, ChatEvent, ChatEventView, SessionError,
};
use crate::text::{join, texts};
use vstd::prelude::*;

verus! {

/// What the owner of the connection and of the table is asked to do.
#[derive(Debug, PartialEq, Eq)]
pub enum Action {
    /// Open the connection with these credentials.
    Connect { login: String, token: String },
    /// Join these channels.
    Join { channels: Vec<String> },
    /// Open the connection anew.
    Reconnect,
    /// Acknowledge a probe, handing its nonce back.
    Pong { nonce: Option<String> },
    /// Say `text` in `channel`.
    Say { channel: String, text: String },
    /// Store `value` as command `name` of `channel`.
    Upsert { channel: String, name: String, value: String },
    /// Delete command `name` of `channel`.
    Delete { channel: String, name: String },
    /// Look up command `name` of `channel`.
    Get { channel: String, name: String },
    /// End the session: the first connection could not be made.
    Stop,
}

/// [`Action`] over mathematical text.
pub enum ActionView {
    Connect { login: Seq<char>, token: Seq<char> },
    Join { channels: Seq<Seq<char>> },
    Reconnect,
    Pong { nonce: Option<Seq<char>> },
    Say { channel: Seq<char>, text: Seq<char> },
    Upsert { channel: Seq<char>, name: Seq<char>, value: Seq<char> },
    Delete { channel: Seq<char>, name: Seq<char> },
    Get { channel: Seq<char>, name: Seq<char> },
    Stop,
}

impl View for Action {
    type V = ActionView;

    open spec fn view(&self) -> ActionView {
        match self {
            Action::Connect { login, token } => ActionView::Connect {
                login: login@,
                token: token@,
            },
            Action::Join { channels } => ActionView::Join { channels: texts(channels@) },
            Action::Reconnect => ActionView::Reconnect,
            Action::Pong { nonce } => ActionView::Pong { nonce: optional_text(*nonce) },
            Action::Say { channel, text } => ActionView::Say { channel: channel@, text: text@ },
            Action::Upsert { channel, name, value } => ActionView::Upsert {
                channel: channel@,
                name: name@,
                value: value@,
            },
            Action::Delete { channel, name } => ActionView::Delete {
                channel: channel@,
                name: name@,
            },
            Action::Get { channel, name } => ActionView::Get { channel: channel@, name: name@ },
            Action::Stop => ActionView::Stop,
        }
    }
}

/// The actions held by a sequence of actions.
pub open spec fn actions_of(actions: Seq<Action>) -> Seq<ActionView> {
    Seq::new(actions.len(), |i: int| actions[i]@)
}

/// The fixed reply to the liveness probe.
pub open spec fn pong_text() -> Seq<char> {
    "pong"@
}

/// The reply when storing command `name` failed.
pub open spec fn add_failed(name: Seq<char>) -> Seq<char> {
    "Failed to add command "@ + name
}

/// The reply when deleting command `name` failed.
pub open spec fn remove_failed(name: Seq<char>) -> Seq<char> {
    "Failed to remove command "@ + name
}

/// What is to be done about a decision taken on a message from `channel`.
pub open spec fn actions_for(channel: Seq<char>, decision: DecisionView) -> Seq<ActionView> {
    match decision {
        DecisionView::Ignore => Seq::empty(),
        DecisionView::AdminAdd { channel, name, value } => seq![
            ActionView::Upsert { channel, name, value },
        ],
        DecisionView::AdminRemove { channel, name } => seq![ActionView::Delete { channel, name }],
        DecisionView::AdminPing => seq![ActionView::Say { channel, text: pong_text() }],
        DecisionView::Lookup { channel, name } => seq![ActionView::Get { channel, name }],
        DecisionView::UserReply { channel, text } => seq![ActionView::Say { channel, text }],
        DecisionView::AdminError { channel, message } => seq![
            ActionView::Say { channel, text: message },
        ],
    }
}

/// What follows a write of command `name` in `channel`: silence if it went
/// through, a reply that names the command if it did not.
pub open spec fn after_add_spec(
    channel: Seq<char>,
    name: Seq<char>,
    outcome: Result<(), StoreError>,
) -> DecisionView {
    match outcome {
        Ok(_) => DecisionView::Ignore,
        Err(_) => DecisionView::AdminError { channel, message: add_failed(name) },
    }
}

/// What follows a removal of command `name` in `channel`: silence if it went
/// through, a reply that names the command if it did not.
pub open spec fn after_remove_spec(
    channel: Seq<char>,
    name: Seq<char>,
    outcome: Result<(), StoreError>,
) -> DecisionView {
    match outcome {
        Ok(_) => DecisionView::Ignore,
        Err(_) => DecisionView::AdminError { channel, message: remove_failed(name) },
    }
}

/// What follows a lookup in `channel`: the stored value as a reply if the
/// command was found, silence on any failure.
pub open spec fn after_get_spec(
    channel: Seq<char>,
    outcome: Result<CommandView, StoreError>,
) -> DecisionView {
    match outcome {
        Ok(found) => DecisionView::UserReply { channel, text: found.value },
        Err(_) => DecisionView::Ignore,
    }
}

/// Handles `add`: `args` are the words that follow it. With a name and at
/// least one word of value the command is to be stored; otherwise the sender
/// is told how to call it.
pub fn add(channel: String, args: &[String]) -> (decision: DispatchDecision)
    ensures
        decision@ == add_spec(channel@, texts(args@)),
{
    let n = args.len();
    if n < 2 {
        return DispatchDecision::AdminError {
            channel,
            message: "Command missing arguments. Usage: !v command add <name> <value>".to_owned(),
        };
    }
    let rest = &args[1..n];
    assert(texts(rest@) == texts(args@).skip(1));
    DispatchDecision::AdminAdd { channel, name: args[0].clone(), value: join(rest) }
}

/// Handles `remove`: `args` are the words that follow it. The first is the
/// name of the command to delete; without one the sender is told how to call
/// it.
pub fn remove(channel: String, args: &[String]) -> (decision: DispatchDecision)
    ensures
        decision@ == remove_spec(channel@, texts(args@)),
{
    if args.len() < 1 {
        return DispatchDecision::AdminError {
            channel,
            message: "Command missing arguments. Usage: !v command remove <name>".to_owned(),
        };
    }
    DispatchDecision::AdminRemove { channel, name: args[0].clone() }
}

/// A copy of a list of strings.
fn copy_all(list: &Vec<String>) -> (copy: Vec<String>)
    ensures
        texts(copy@) == texts(list@),
{
    let mut copy: Vec<String> = Vec::new();
    let mut i: usize = 0;
    while i < list.len()
        invariant
            i <= list.len(),
            texts(copy@) == texts(list@).take(i as int),
        decreases list.len() - i,
    {
        let ghost before = texts(copy@);
        copy.push(list[i].clone());
        assert(texts(copy@) == before.push(list@[i as int]@));
        assert(texts(list@).take(i + 1) == texts(list@).take(i as int).push(list@[i as int]@));
        i += 1;
    }
    assert(texts(list@).take(list.len() as int) == texts(list@));
    copy
}

/// Settles a write: see [`after_add_spec`].
pub fn after_add(channel: String, name: &str, outcome: Result<(), StoreError>) -> (decision:
    DispatchDecision)
    ensures
        decision@ == after_add_spec(channel@, name@, outcome),
{
    match outcome {
        Ok(_) => DispatchDecision::Ignore,
        Err(_) => {
            let message = "Failed to add command ".to_owned().concat(name);
            DispatchDecision::AdminError { channel, message }
        },
    }
}

/// Settles a removal: see [`after_remove_spec`].
pub fn after_remove(channel: String, name: &str, outcome: Result<(), StoreError>) -> (decision:
    DispatchDecision)
    ensures
        decision@ == after_remove_spec(channel@, name@, outcome),
{
    match outcome {
        Ok(_) => DispatchDecision::Ignore,
        Err(_) => {
            let message = "Failed to remove command ".to_owned().concat(name);
            DispatchDecision::AdminError { channel, message }
        },
    }
}

/// The view of the outcome of a lookup.
pub open spec fn found_view(outcome: Result<Command, StoreError>) -> Result<
    CommandView,
    StoreError,
> {
    match outcome {
        Ok(found) => Ok(found@),
        Err(e) => Err(e),
    }
}

/// Settles a lookup: see [`after_get_spec`].
pub fn after_get(channel: String, outcome: Result<Command, StoreError>) -> (decision:
    DispatchDecision)
    ensures
        decision@ == after_get_spec(channel@, found_view(outcome)),
{
    match outcome {
        Ok(found) => DispatchDecision::UserReply { channel, text: found.value },
        Err(_) => DispatchDecision::Ignore,
    }
}

/// The actions that carry out `decision`, taken on a message from `channel`:
/// none, or one.
pub fn carry_out(channel: &str, decision: DispatchDecision) -> (actions: Vec<Action>)
    ensures
        actions_of(actions@) == actions_for(channel@, decision@),
{
    let mut actions: Vec<Action> = Vec::new();
    match decision {
        DispatchDecision::Ignore => {},
        DispatchDecision::AdminAdd { channel, name, value } => {
            actions.push(Action::Upsert { channel, name, value });
        },
        DispatchDecision::AdminRemove { channel, name } => {
            actions.push(Action::Delete { channel, name });
        },
        DispatchDecision::AdminPing => {
            actions.push(Action::Say { channel: channel.to_owned(), text: "pong".to_owned() });
        },
        DispatchDecision::Lookup { channel, name } => {
            actions.push(Action::Get { channel, name });
        },
        DispatchDecision::UserReply { channel, text } => {
            actions.push(Action::Say { channel, text });
        },
        DispatchDecision::AdminError { channel, message } => {
            actions.push(Action::Say { channel, text: message });
        },
    }
    assert(actions_of(actions@) =~= actions_for(channel@, decision@));
    actions
}

/// Where the session stands.
#[derive(Debug, Clone, Copy, PartialEq, Eq, Structural)]
pub enum SessionState {
    /// No connection yet.
    Disconnected,
    /// The connection is being opened and the channels joined; `first` says
    /// whether this is the connection that the session starts with.
    Connecting { first: bool },
    /// Connected, every configured channel joined: messages are served.
    Joined,
    /// Ended: the first connection could not be made.
    Stopped,
}

/// What the owner of the connection reports to the session.
#[derive(Debug, PartialEq, Eq)]
pub enum SessionEvent {
    /// The session is to begin.
    Start,
    /// The connection stands and the channels asked for are joined.
    Established,
    /// A frame arrived and was decoded.
    Received(ChatEvent),
    /// Receiving or decoding a frame, connecting or sending failed.
    Failed(SessionError),
}

/// [`SessionEvent`] over mathematical text.
pub enum SessionEventView {
    Start,
    Established,
    Received(ChatEventView),
    Failed(SessionError),
}

impl View for SessionEvent {
    type V = SessionEventView;

    open spec fn view(&self) -> SessionEventView {
        match self {
            SessionEvent::Start => SessionEventView::Start,
            SessionEvent::Established => SessionEventView::Established,
            SessionEvent::Received(event) => SessionEventView::Received(event@),
            SessionEvent::Failed(e) => SessionEventView::Failed(*e),
        }
    }
}

/// The state after `event` arrived in `state`.
///
/// A session begins only from `Disconnected`. While connecting, nothing but
/// the report that the channels are joined leads on. If the first connection
/// fails the session is over; a later one is tried again. Once joined, only
/// the server's request to reconnect leaves the state; a failure to receive
/// or decode a frame, or to send, does not.
pub open spec fn next_state(state: SessionState, event: SessionEventView) -> SessionState {
    match (state, event) {
        (SessionState::Disconnected, SessionEventView::Start) => SessionState::Connecting {
            first: true,
        },
        (SessionState::Connecting { .. }, SessionEventView::Established) => SessionState::Joined,
        (
            SessionState::Connecting { first: true },
            SessionEventView::Failed(SessionError::Transport),
        ) => SessionState::Stopped,
        (SessionState::Joined, SessionEventView::Received(ChatEventView::Reconnect)) => {
            SessionState::Connecting { first: false }
        },
        _ => state,
    }
}

/// The actions that `event`, arriving in `state`, calls for, in order.
///
/// Messages are dispatched only while joined; what arrives before the
/// channels are joined is dropped. A keepalive is acknowledged whenever a
/// connection exists. A reconnect request is answered by reconnecting and
/// joining every configured channel, and so is the failure of such a
/// reconnect. The failure of the first connection is answered by stopping.
pub open spec fn step_actions(
    state: SessionState,
    config: ConfigView,
    event: SessionEventView,
) -> Seq<ActionView> {
    match (state, event) {
        (SessionState::Disconnected, SessionEventView::Start) => seq![
            ActionView::Connect { login: config.user, token: config.tmi_password },
            ActionView::Join { channels: config.channels },
        ],
        (
            SessionState::Connecting { first: true },
            SessionEventView::Failed(SessionError::Transport),
        ) => seq![ActionView::Stop],
        (
            SessionState::Connecting { first: false },
            SessionEventView::Failed(SessionError::Transport),
        ) => seq![ActionView::Reconnect, ActionView::Join { channels: config.channels }],
        (SessionState::Joined, SessionEventView::Received(ChatEventView::Reconnect)) => seq![
            ActionView::Reconnect,
            ActionView::Join { channels: config.channels },
        ],
        (
            SessionState::Joined,
            SessionEventView::Received(ChatEventView::Message { channel, sender, text }),
        ) => actions_for(channel, dispatch_spec(channel, sender, text)),
        (SessionState::Joined, SessionEventView::Received(ChatEventView::Keepalive { nonce })) => {
            seq![ActionView::Pong { nonce }]
        },
        (
            SessionState::Connecting { .. },
            SessionEventView::Received(ChatEventView::Keepalive { nonce }),
        ) => seq![ActionView::Pong { nonce }],
        _ => Seq::empty(),
    }
}

/// The table and the actions left after `action` was carried out on the
/// table `rows`, where `id` is the identifier that a write draws.
///
/// A write that goes through leaves nothing to do; one that fails leaves the
/// table alone and a reply that names the command. A removal leaves nothing
/// to do. A lookup leaves the stored value as a reply, or nothing. Any other
/// action is not the table's business and is handed on.
pub open spec fn performed(rows: Seq<CommandView>, action: ActionView, id: u128) -> (
    Seq<CommandView>,
    Seq<ActionView>,
) {
    match action {
        ActionView::Upsert { channel, name, value } => {
            let row = row_of(id, channel, name, value);
            if id_taken(rows, row) {
                (
                    rows,
                    actions_for(
                        channel,
                        after_add_spec(channel, name, Err(StoreError::Backend)),
                    ),
                )
            } else {
                (upserted(rows, row), Seq::empty())
            }
        },
        ActionView::Delete { channel, name } => (
            without(rows, channel, name),
            Seq::empty(),
        ),
        ActionView::Get { channel, name } => (
            rows,
            actions_for(
                channel,
                after_get_spec(channel, get_spec(rows, channel, name)),
            ),
        ),
        _ => (rows, seq![action]),
    }
}

/// The table and the actions left after the actions of one step were
/// carried out on `rows`: a single action goes through [`performed`], and
/// the two actions that open a connection are handed on as they are.
pub open spec fn served(rows: Seq<CommandView>, actions: Seq<ActionView>, id: u128) -> (
    Seq<CommandView>,
    Seq<ActionView>,
) {
    if actions.len() == 1 {
        performed(rows, actions[0], id)
    } else {
        (rows, actions)
    }
}

/// Carries `action` out on `store` and returns what is left to do: see
/// [`performed`].
pub fn perform(store: &mut CommandStore, action: Action) -> (left: Vec<Action>)
    ensures
        exists|id: u128|
            is_v7(id) && #[trigger] performed(old(store)@, action@, id) == (
                final(store)@,
                actions_of(left@),
            ),
{
    let ghost rows = store@;
    let ghost any = lemma_v7_exists();
    match action {
        Action::Upsert { channel, name, value } => {
            let reply_to = channel.clone();
            let named = name.clone();
            let outcome = crate::command::add(store, channel, name, value);
            let decision = after_add(reply_to.clone(), named.as_str(), outcome);
            let left = carry_out(reply_to.as_str(), decision);
            proof {
                let id = choose|id: u128|
                    {
                        &&& is_v7(id)
                        &&& outcome is Err <==> id_taken(
                            rows,
                            #[trigger] row_of(id, channel@, name@, value@),
                        )
                        &&& outcome is Ok ==> store@ == upserted(
                            rows,
                            row_of(id, channel@, name@, value@),
                        )
                    };
                assert(performed(rows, action@, id) == (store@, actions_of(left@)));
            }
            left
        },
        Action::Delete { channel, name } => {
            let _ = crate::command::remove(store, channel.as_str(), name.as_str());
            let left: Vec<Action> = Vec::new();
            assert(actions_of(left@) == Seq::<ActionView>::empty());
            assert(performed(rows, action@, any) == (store@, actions_of(left@)));
            left
        },
        Action::Get { channel, name } => {
            let outcome = crate::command::get(store, channel.as_str(), name.as_str());
            let decision = after_get(channel.clone(), outcome);
            let left = carry_out(channel.as_str(), decision);
            assert(performed(rows, action@, any) == (store@, actions_of(left@)));
            left
        },
        other => {
            let mut left: Vec<Action> = Vec::new();
            left.push(other);
            assert(actions_of(left@) == seq![action@]);
            assert(performed(rows, action@, any) == (store@, actions_of(left@)));
            left
        },
    }
}

/// The chat session of the bot.
#[derive(Debug, PartialEq, Eq)]
pub struct VuekoTwitch {
    /// Where the session stands.
    pub state: SessionState,
}

impl VuekoTwitch {
    /// A session that has not begun.
    pub fn new() -> (session: Self)
        ensures
            session.state == SessionState::Disconnected,
    {
        VuekoTwitch { state: SessionState::Disconnected }
    }

    /// Takes one event: moves to the next state and returns the actions to
    /// carry out, in order.
    pub fn step(&mut self, config: &VuekoConfig, event: SessionEvent) -> (actions:
        Vec<Action>)
        ensures
            final(self).state == next_state(old(self).state, event@),
            actions_of(actions@) == step_actions(old(self).state, config@, event@),
    {
        let mut actions: Vec<Action> = Vec::new();
        let state = self.state;
        match state {
            SessionState::Disconnected => match event {
                SessionEvent::Start => {
                    self.state = SessionState::Connecting { first: true };
                    actions.push(
                        Action::Connect {
                            login: config.user.clone(),
                            token: config.tmi_password.clone(),
                        },
                    );
                    actions.push(Action::Join { channels: copy_all(&config.channels) });
                },
                _ => {},
            },
            SessionState::Connecting { first } => match event {
                SessionEvent::Established => {
                    self.state = SessionState::Joined;
                },
                SessionEvent::Failed(SessionError::Transport) => {
                    if first {
                        self.state = SessionState::Stopped;
                        actions.push(Action::Stop);
                    } else {
                        actions.push(Action::Reconnect);
                        actions.push(Action::Join { channels: copy_all(&config.channels) });
                    }
                },
                SessionEvent::Received(ChatEvent::Keepalive { nonce }) => {
                    actions.push(Action::Pong { nonce });
                },
                _ => {},
            },
            SessionState::Joined => match event {
                SessionEvent::Received(ChatEvent::Reconnect) => {
                    self.state = SessionState::Connecting { first: false };
                    actions.push(Action::Reconnect);
                    actions.push(Action::Join { channels: copy_all(&config.channels) });
                },
                SessionEvent::Received(ChatEvent::Message { channel, sender, text }) => {
                    let decision = dispatch(
                        channel.as_str(),
                        sender,
                        text.as_str(),
                    );
                    actions = carry_out(channel.as_str(), decision);
                },
                SessionEvent::Received(ChatEvent::Keepalive { nonce }) => {
                    actions.push(Action::Pong { nonce });
                },
                _ => {},
            },
            SessionState::Stopped => {},
        }
        assert(actions_of(actions@) =~= step_actions(state, config@, event@));
        actions
    }

    /// Handles one raw line of the protocol against the table `store`:
    /// decodes it, takes the step, carries out on `store` what the step asks
    /// of the table, and returns what is left to do on the connection.
    pub fn map_command(
        &mut self,
        store: &mut CommandStore,
        config: &VuekoConfig,
        raw: &str,
    ) -> (left: Vec<Action>)
        ensures
            final(self).state == next_state(old(self).state, inbound(decoded(raw@))),
            exists|id: u128|
                is_v7(id) && #[trigger] served(
                    old(store)@,
                    step_actions(old(self).state, config@, inbound(decoded(raw@))),
                    id,
                ) == (final(store)@, actions_of(left@)),
    {
        let event = match decode(raw) {
            Ok(event) => SessionEvent::Received(event),
            Err(e) => SessionEvent::Failed(e),
        };
        assert(event@ == inbound(decoded(raw@)));
        self.serve(store, config, event)
    }

    /// Takes one event against the table `store`: the step, then on `store`
    /// what the step asks of the table. Returns what is left to do on the
    /// connection.
    pub fn serve(
        &mut self,
        store: &mut CommandStore,
        config: &VuekoConfig,
        event: SessionEvent,
    ) -> (left: Vec<Action>)
        ensures
            final(self).state == next_state(old(self).state, event@),
            exists|id: u128|
                is_v7(id) && #[trigger] served(
                    old(store)@,
                    step_actions(old(self).state, config@, event@),
                    id,
                ) == (final(store)@, actions_of(left@)),
    {
        let mut actions = self.step(config, event);
        let ghost asked = actions_of(actions@);
        let ghost rows = store@;
        if actions.len() == 1 {
            let action = actions.pop().unwrap();
            assert(action@ == asked[0]);
            let left = perform(store, action);
            proof {
                let id = choose|id: u128|
                    is_v7(id) && #[trigger] performed(rows, action@, id) == (
                        store@,
                        actions_of(left@),
                    );
                assert(served(rows, asked, id) == (store@, actions_of(left@)));
            }
            left
        } else {
            let ghost any = lemma_v7_exists();
            assert(served(rows, asked, any) == (rows, actions_of(actions@)));
            actions
        }
    }
}

/// The event that the owner of the connection reports for a line that was
/// decoded as `read`.
pub open spec fn inbound(read: Result<ChatEventView, SessionError>) -> SessionEventView {
    match read {
        Ok(event) => SessionEventView::Received(event),
        Err(e) => SessionEventView::Failed(e),
    }
}

/// The channel that an action speaks to or acts on, if it has one.
pub open spec fn action_channel(action: ActionView) -> Option<Seq<char>> {
    match action {
        ActionView::Say { channel, .. } => Some(channel),
        ActionView::Upsert { channel, .. } => Some(channel),
        ActionView::Delete { channel, .. } => Some(channel),
        ActionView::Get { channel, .. } => Some(channel),
        _ => None,
    }
}

/// Reconnect recovery. When the server asks for it, the session reconnects
/// and joins every configured channel, in this order, and leaves the joined
/// state. Until the joins are reported done no message is processed, a
/// failed attempt is made again in the same order, and nothing but that
/// report leads back to the joined state.
pub proof fn law_reconnect_rejoins_first(
    config: ConfigView,
    channel: Seq<char>,
    sender: Privilege,
    text: Seq<char>,
)
    ensures
        step_actions(
            SessionState::Joined,
            config,
            SessionEventView::Received(ChatEventView::Reconnect),
        ) == seq![ActionView::Reconnect, ActionView::Join { channels: config.channels }],
        next_state(SessionState::Joined, SessionEventView::Received(ChatEventView::Reconnect))
            == (SessionState::Connecting { first: false }),
        step_actions(
            SessionState::Connecting { first: false },
            config,
            SessionEventView::Received(ChatEventView::Message { channel, sender, text }),
        ) == Seq::<ActionView>::empty(),
        next_state(
            SessionState::Connecting { first: false },
            SessionEventView::Received(ChatEventView::Message { channel, sender, text }),
        ) == (SessionState::Connecting { first: false }),
        step_actions(
            SessionState::Connecting { first: false },
            config,
            SessionEventView::Failed(SessionError::Transport),
        ) == seq![ActionView::Reconnect, ActionView::Join { channels: config.channels }],
        forall|event: SessionEventView|
            #[trigger] next_state(SessionState::Connecting { first: false }, event)
                == SessionState::Joined ==> event == SessionEventView::Established,
{
}

/// The only way into the joined state is the report that the channels are
/// joined, made while connecting.
pub proof fn law_joined_only_when_established(state: SessionState, event: SessionEventView)
    requires
        state != SessionState::Joined,
        next_state(state, event) == SessionState::Joined,
    ensures
        state is Connecting,
        event == SessionEventView::Established,
{
}

/// Only the failure of the first connection ends a session. It is answered
/// by stopping; from any other state no event leads to the stopped state or
/// asks to stop, and a stopped session stays stopped and asks for nothing.
pub proof fn law_only_the_first_connection_is_fatal(
    state: SessionState,
    config: ConfigView,
    event: SessionEventView,
)
    ensures
        next_state(
            SessionState::Connecting { first: true },
            SessionEventView::Failed(SessionError::Transport),
        ) == SessionState::Stopped,
        step_actions(
            SessionState::Connecting { first: true },
            config,
            SessionEventView::Failed(SessionError::Transport),
        ) == seq![ActionView::Stop],
        state != SessionState::Stopped && next_state(state, event) == SessionState::Stopped ==> state
            == (SessionState::Connecting { first: true }) && event == SessionEventView::Failed(
            SessionError::Transport,
        ),
        step_actions(state, config, event).contains(ActionView::Stop) ==> state == (
            SessionState::Connecting { first: true }
        ),
        next_state(SessionState::Stopped, event) == SessionState::Stopped,
        step_actions(SessionState::Stopped, config, event) == Seq::<ActionView>::empty(),
{
    let asked = step_actions(state, config, event);
    if asked.contains(ActionView::Stop) {
        let i = choose|i: int| 0 <= i < asked.len() && asked[i] == ActionView::Stop;
        assert(asked[i] == ActionView::Stop);
    }
}

/// A frame that cannot be received or decoded stops nothing: the session
/// stays joined and asks for nothing.
pub proof fn law_failure_does_not_end_the_session(
    config: ConfigView,
    error: SessionError,
)
    ensures
        next_state(SessionState::Joined, SessionEventView::Failed(error)) == SessionState::Joined,
        step_actions(SessionState::Joined, config, SessionEventView::Failed(error)) == Seq::<
            ActionView,
        >::empty(),
{
}

/// Every action that a message calls for, and every reply that is left once
/// the table has done its part, concerns the channel the message came from.
pub proof fn law_replies_go_to_origin(
    rows: Seq<CommandView>,
    config: ConfigView,
    channel: Seq<char>,
    sender: Privilege,
    text: Seq<char>,
    id: u128,
)
    ensures
        ({
            let asked = step_actions(
                SessionState::Joined,
                config,
                SessionEventView::Received(ChatEventView::Message { channel, sender, text }),
            );
            let left = served(rows, asked, id).1;
            &&& asked.len() <= 1
            &&& forall|i: int|
                0 <= i < asked.len() ==> action_channel(#[trigger] asked[i]) == Some(channel)
            &&& left.len() <= 1
            &&& forall|i: int|
                0 <= i < left.len() ==> #[trigger] left[i] is Say && action_channel(left[i])
                    == Some(channel)
        }),
{
}

/// A stored command is served: right after `row` was written, a message
/// that invokes its name in its channel, from any sender, is answered with
/// its value in that channel, and the table stays as it is.
pub proof fn law_stored_command_is_served(
    rows: Seq<CommandView>,
    row: CommandView,
    config: ConfigView,
    sender: Privilege,
    id: u128,
)
    requires
        crate::text::is_word(row.command),
        row.command != crate::dispatch::admin_keyword(),
    ensures
        served(
            upserted(rows, row),
            step_actions(
                SessionState::Joined,
                config,
                SessionEventView::Received(
                    ChatEventView::Message {
                        channel: row.channel,
                        sender,
                        text: seq![crate::dispatch::trigger()] + row.command,
                    },
                ),
            ),
            id,
        ) == (
            upserted(rows, row),
            seq![ActionView::Say { channel: row.channel, text: row.value }],
        ),
{
    let text = seq![crate::dispatch::trigger()] + row.command;
    assert(text.skip(1) == row.command);
    crate::text::lemma_split_single_word(row.command);
    crate::table::law_upsert_then_get(rows, row);
}

} // verus!
