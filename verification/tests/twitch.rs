use vueko::command::{add, get, Command, CommandStore, StoreError};
use vueko::config::VuekoConfig;
use vueko::dispatch::{DispatchDecision, Privilege, Roles};
use vueko::event::{
    decode, interpret, is_readable, roles_of, ChatEvent, Frame, SessionError, LINE_SPAN, TAG_ROOM,
    TAG_SPAN,
};
use vueko::twitch::{
    after_add, after_get, after_remove, carry_out, perform, Action, SessionEvent, SessionState,
    VuekoTwitch,
};

const OWNER_LINE: &str = "@badge-info=;badges=broadcaster/1;color=#FF0000;display-name=Owner;emotes=;flags=;id=7eb848c9-1060-4e5e-9f4c-612877982e79;mod=0;room-id=11148817;subscriber=0;tmi-sent-ts=1594545155039;turbo=0;user-id=29803735;user-type= :owner!owner@owner.tmi.twitch.tv PRIVMSG #chan :!v command add greet hello there";
const MOD_LINE: &str = "@badge-info=subscriber/22;badges=moderator/1,subscriber/12;color=#19E6E6;display-name=mod;emotes=;flags=;id=d831d848-b7c7-4559-ae3a-2cb88f4dbfed;mod=1;room-id=11148817;subscriber=1;tmi-sent-ts=1594555275886;turbo=0;user-id=40286300;user-type=mod :mod!mod@mod.tmi.twitch.tv PRIVMSG #chan :!v command remove greet";
const VIEWER_LINE: &str = "@badge-info=subscriber/3;badges=subscriber/3;color=#0000FF;display-name=Viewer;emotes=;flags=;id=e9d998c3-36f1-430f-89ec-6b887c28af36;mod=0;room-id=11148817;subscriber=1;tmi-sent-ts=1594545155039;turbo=0;user-id=29803736;user-type= :viewer!viewer@viewer.tmi.twitch.tv PRIVMSG #chan :!greet";
const VIEWER_ADMIN_LINE: &str = "@badge-info=;badges=;color=#0000FF;display-name=Viewer;emotes=;flags=;id=e9d998c3-36f1-430f-89ec-6b887c28af37;mod=0;room-id=11148817;subscriber=0;tmi-sent-ts=1594545155039;turbo=0;user-id=29803736;user-type= :viewer!viewer@viewer.tmi.twitch.tv PRIVMSG #chan :!v command add foo bar";

fn config() -> VuekoConfig {
    VuekoConfig {
        user: "vueko".to_string(),
        tmi_password: "oauth:token".to_string(),
        channels: vec!["#chan".to_string(), "#other".to_string()],
        database: "postgres://localhost/vueko".to_string(),
    }
}

fn joined() -> VuekoTwitch {
    VuekoTwitch { state: SessionState::Joined }
}

fn say(channel: &str, text: &str) -> Action {
    Action::Say { channel: channel.to_string(), text: text.to_string() }
}

fn message(channel: &str, sender: Privilege, text: &str) -> SessionEvent {
    SessionEvent::Received(ChatEvent::Message {
        channel: channel.to_string(),
        sender,
        text: text.to_string(),
    })
}

fn join_all() -> Action {
    Action::Join { channels: vec!["#chan".to_string(), "#other".to_string()] }
}

#[test]
fn decode_reads_a_broadcaster_message() {
    assert_eq!(
        decode(OWNER_LINE),
        Ok(ChatEvent::Message {
            channel: "#chan".to_string(),
            sender: Privilege::Elevated,
            text: "!v command add greet hello there".to_string(),
        })
    );
}

#[test]
fn decode_reads_a_moderator_message() {
    assert_eq!(
        decode(MOD_LINE),
        Ok(ChatEvent::Message {
            channel: "#chan".to_string(),
            sender: Privilege::Elevated,
            text: "!v command remove greet".to_string(),
        })
    );
}

#[test]
fn decode_reads_a_viewer_message() {
    assert_eq!(
        decode(VIEWER_LINE),
        Ok(ChatEvent::Message {
            channel: "#chan".to_string(),
            sender: Privilege::Regular,
            text: "!greet".to_string(),
        })
    );
}

#[test]
fn decode_reads_keepalive_and_reconnect() {
    assert_eq!(
        decode("PING :tmi.twitch.tv"),
        Ok(ChatEvent::Keepalive { nonce: Some("tmi.twitch.tv".to_string()) })
    );
    assert_eq!(decode("PING"), Ok(ChatEvent::Keepalive { nonce: None }));
    assert_eq!(decode(":tmi.twitch.tv RECONNECT"), Ok(ChatEvent::Reconnect));
}

#[test]
fn decode_passes_other_frames() {
    assert_eq!(decode(":tmi.twitch.tv 001 vueko :Welcome, GLHF!"), Ok(ChatEvent::Other));
}

#[test]
fn decode_rejects_an_empty_line() {
    assert_eq!(decode(""), Err(SessionError::Protocol));
}

#[test]
fn decode_rejects_a_message_without_its_tags() {
    assert_eq!(decode(":viewer!viewer@viewer.tmi.twitch.tv PRIVMSG #chan :hi"), Err(SessionError::Protocol));
}

#[test]
fn interpret_maps_each_frame() {
    assert_eq!(interpret(None), Err(SessionError::Protocol));
    assert_eq!(interpret(Some(Frame::Reconnect)), Ok(ChatEvent::Reconnect));
    assert_eq!(interpret(Some(Frame::Other)), Ok(ChatEvent::Other));
    assert_eq!(
        interpret(Some(Frame::Ping { nonce: Some("abc".to_string()) })),
        Ok(ChatEvent::Keepalive { nonce: Some("abc".to_string()) })
    );
    assert_eq!(
        interpret(Some(Frame::Privmsg {
            channel: "#chan".to_string(),
            badges: vec!["subscriber".to_string(), "moderator".to_string()],
            text: "hi".to_string(),
        })),
        Ok(ChatEvent::Message {
            channel: "#chan".to_string(),
            sender: Privilege::Elevated,
            text: "hi".to_string(),
        })
    );
    assert_eq!(
        interpret(Some(Frame::Privmsg {
            channel: "#chan".to_string(),
            badges: vec!["subscriber".to_string(), "vip".to_string()],
            text: "hi".to_string(),
        })),
        Ok(ChatEvent::Message {
            channel: "#chan".to_string(),
            sender: Privilege::Regular,
            text: "hi".to_string(),
        })
    );
}

#[test]
fn roles_come_from_badge_names() {
    let names = |items: &[&str]| -> Vec<String> { items.iter().map(|s| s.to_string()).collect() };
    assert_eq!(roles_of(&names(&[])), Roles { broadcaster: false, moderator: false });
    assert_eq!(roles_of(&names(&["broadcaster"])), Roles { broadcaster: true, moderator: false });
    assert_eq!(roles_of(&names(&["turbo", "moderator"])), Roles { broadcaster: false, moderator: true });
    assert_eq!(
        roles_of(&names(&["moderator", "broadcaster", "staff"])),
        Roles { broadcaster: true, moderator: true }
    );
    assert_eq!(roles_of(&names(&["Broadcaster", "moderators"])), Roles { broadcaster: false, moderator: false });
}

#[test]
fn a_session_starts_disconnected() {
    assert_eq!(VuekoTwitch::new().state, SessionState::Disconnected);
}

#[test]
fn start_connects_and_joins_every_channel() {
    let mut session = VuekoTwitch::new();
    let actions = session.step(&config(), SessionEvent::Start);
    assert_eq!(
        actions,
        vec![
            Action::Connect { login: "vueko".to_string(), token: "oauth:token".to_string() },
            join_all(),
        ]
    );
    assert_eq!(session.state, SessionState::Connecting { first: true });
    assert_eq!(session.step(&config(), SessionEvent::Established), vec![]);
    assert_eq!(session.state, SessionState::Joined);
}

#[test]
fn a_failed_first_connection_ends_the_session() {
    let mut session = VuekoTwitch::new();
    session.step(&config(), SessionEvent::Start);
    assert_eq!(session.step(&config(), SessionEvent::Failed(SessionError::Transport)), vec![Action::Stop]);
    assert_eq!(session.state, SessionState::Stopped);
    assert_eq!(session.step(&config(), SessionEvent::Start), vec![]);
    assert_eq!(session.step(&config(), SessionEvent::Established), vec![]);
    assert_eq!(session.step(&config(), message("#chan", Privilege::Elevated, "!v ping")), vec![]);
    assert_eq!(session.state, SessionState::Stopped);
}

#[test]
fn a_protocol_error_does_not_end_the_first_connection() {
    let mut session = VuekoTwitch::new();
    session.step(&config(), SessionEvent::Start);
    assert_eq!(session.step(&config(), SessionEvent::Failed(SessionError::Protocol)), vec![]);
    assert_eq!(session.state, SessionState::Connecting { first: true });
}

#[test]
fn start_is_ignored_once_begun() {
    let mut session = joined();
    assert_eq!(session.step(&config(), SessionEvent::Start), vec![]);
    assert_eq!(session.state, SessionState::Joined);
}

#[test]
fn nothing_is_served_while_disconnected() {
    let mut session = VuekoTwitch::new();
    assert_eq!(session.step(&config(), message("#chan", Privilege::Elevated, "!v ping")), vec![]);
    assert_eq!(session.step(&config(), SessionEvent::Established), vec![]);
    assert_eq!(session.state, SessionState::Disconnected);
}

#[test]
fn reconnect_rejoins_before_the_next_message() {
    let mut session = joined();
    let actions = session.step(&config(), SessionEvent::Received(ChatEvent::Reconnect));
    assert_eq!(actions, vec![Action::Reconnect, join_all()]);
    assert_eq!(session.state, SessionState::Connecting { first: false });
    assert_eq!(session.step(&config(), message("#chan", Privilege::Regular, "!greet")), vec![]);
    assert_eq!(session.state, SessionState::Connecting { first: false });
    assert_eq!(session.step(&config(), SessionEvent::Established), vec![]);
    assert_eq!(session.state, SessionState::Joined);
    assert_eq!(
        session.step(&config(), message("#chan", Privilege::Regular, "!greet")),
        vec![Action::Get { channel: "#chan".to_string(), name: "greet".to_string() }]
    );
}

#[test]
fn a_failed_reconnect_is_tried_again() {
    let mut session = joined();
    session.step(&config(), SessionEvent::Received(ChatEvent::Reconnect));
    assert_eq!(
        session.step(&config(), SessionEvent::Failed(SessionError::Transport)),
        vec![Action::Reconnect, join_all()]
    );
    assert_eq!(session.state, SessionState::Connecting { first: false });
    assert_eq!(
        session.step(&config(), SessionEvent::Failed(SessionError::Transport)),
        vec![Action::Reconnect, join_all()]
    );
    assert_eq!(session.step(&config(), SessionEvent::Established), vec![]);
    assert_eq!(session.state, SessionState::Joined);
}

#[test]
fn failures_do_not_end_a_joined_session() {
    let mut session = joined();
    assert_eq!(session.step(&config(), SessionEvent::Failed(SessionError::Transport)), vec![]);
    assert_eq!(session.state, SessionState::Joined);
    assert_eq!(session.step(&config(), SessionEvent::Failed(SessionError::Protocol)), vec![]);
    assert_eq!(session.state, SessionState::Joined);
    assert_eq!(
        session.step(&config(), message("#chan", Privilege::Elevated, "!v ping")),
        vec![say("#chan", "pong")]
    );
}

#[test]
fn keepalive_is_acknowledged_with_its_nonce() {
    let mut session = joined();
    assert_eq!(
        session.step(&config(), SessionEvent::Received(ChatEvent::Keepalive { nonce: Some("abc".to_string()) })),
        vec![Action::Pong { nonce: Some("abc".to_string()) }]
    );
    assert_eq!(
        session.step(&config(), SessionEvent::Received(ChatEvent::Keepalive { nonce: None })),
        vec![Action::Pong { nonce: None }]
    );
    assert_eq!(session.state, SessionState::Joined);
    for first in [true, false] {
        let mut connecting = VuekoTwitch { state: SessionState::Connecting { first } };
        assert_eq!(
            connecting.step(&config(), SessionEvent::Received(ChatEvent::Keepalive { nonce: None })),
            vec![Action::Pong { nonce: None }]
        );
        assert_eq!(connecting.state, SessionState::Connecting { first });
    }
}

#[test]
fn other_events_ask_for_nothing() {
    let mut session = joined();
    assert_eq!(session.step(&config(), SessionEvent::Received(ChatEvent::Other)), vec![]);
    assert_eq!(session.step(&config(), SessionEvent::Established), vec![]);
    assert_eq!(session.state, SessionState::Joined);
}

#[test]
fn messages_become_store_actions() {
    let mut session = joined();
    assert_eq!(
        session.step(&config(), message("#chan", Privilege::Elevated, "!v command add greet hello there")),
        vec![Action::Upsert {
            channel: "#chan".to_string(),
            name: "greet".to_string(),
            value: "hello there".to_string(),
        }]
    );
    assert_eq!(
        session.step(&config(), message("#chan", Privilege::Elevated, "!v command remove greet")),
        vec![Action::Delete { channel: "#chan".to_string(), name: "greet".to_string() }]
    );
    assert_eq!(
        session.step(&config(), message("#chan", Privilege::Elevated, "!v command add greet")),
        vec![say("#chan", "Command missing arguments. Usage: !v command add <name> <value>")]
    );
    assert_eq!(
        session.step(&config(), message("#chan", Privilege::Elevated, "!v command remove")),
        vec![say("#chan", "Command missing arguments. Usage: !v command remove <name>")]
    );
    assert_eq!(session.step(&config(), message("#chan", Privilege::Regular, "!v command add foo bar")), vec![]);
    assert_eq!(session.step(&config(), message("#chan", Privilege::Regular, "hello")), vec![]);
}

#[test]
fn carry_out_maps_each_decision() {
    assert_eq!(carry_out("#chan", DispatchDecision::Ignore), vec![]);
    assert_eq!(carry_out("#chan", DispatchDecision::AdminPing), vec![say("#chan", "pong")]);
    assert_eq!(
        carry_out(
            "#chan",
            DispatchDecision::UserReply { channel: "#chan".to_string(), text: "hello there".to_string() }
        ),
        vec![say("#chan", "hello there")]
    );
    assert_eq!(
        carry_out(
            "#chan",
            DispatchDecision::AdminError { channel: "#chan".to_string(), message: "no".to_string() }
        ),
        vec![say("#chan", "no")]
    );
    assert_eq!(
        carry_out("#chan", DispatchDecision::Lookup { channel: "#chan".to_string(), name: "greet".to_string() }),
        vec![Action::Get { channel: "#chan".to_string(), name: "greet".to_string() }]
    );
}

#[test]
fn store_failures_name_the_command() {
    assert_eq!(after_add("#chan".to_string(), "greet", Ok(())), DispatchDecision::Ignore);
    assert_eq!(
        after_add("#chan".to_string(), "greet", Err(StoreError::Backend)),
        DispatchDecision::AdminError {
            channel: "#chan".to_string(),
            message: "Failed to add command greet".to_string(),
        }
    );
    assert_eq!(after_remove("#chan".to_string(), "greet", Ok(())), DispatchDecision::Ignore);
    assert_eq!(
        after_remove("#chan".to_string(), "greet", Err(StoreError::Backend)),
        DispatchDecision::AdminError {
            channel: "#chan".to_string(),
            message: "Failed to remove command greet".to_string(),
        }
    );
}

#[test]
fn lookups_reply_only_when_found() {
    let found = Command {
        id: 1,
        channel: "#chan".to_string(),
        command: "greet".to_string(),
        value: "hello there".to_string(),
    };
    assert_eq!(
        after_get("#chan".to_string(), Ok(found)),
        DispatchDecision::UserReply { channel: "#chan".to_string(), text: "hello there".to_string() }
    );
    assert_eq!(after_get("#chan".to_string(), Err(StoreError::NotFound)), DispatchDecision::Ignore);
    assert_eq!(after_get("#chan".to_string(), Err(StoreError::Backend)), DispatchDecision::Ignore);
}

#[test]
fn a_stored_command_is_served_to_a_regular_sender() {
    let mut store = CommandStore::new();
    assert_eq!(add(&mut store, "#chan".to_string(), "greet".to_string(), "hello there".to_string()), Ok(()));
    let mut session = joined();
    let left = session.serve(&mut store, &config(), message("#chan", Privilege::Regular, "!greet"));
    assert_eq!(left, vec![say("#chan", "hello there")]);
}

#[test]
fn an_unknown_command_is_met_with_silence() {
    let mut store = CommandStore::new();
    let mut session = joined();
    assert_eq!(session.serve(&mut store, &config(), message("#chan", Privilege::Regular, "!greet")), vec![]);
    assert_eq!(add(&mut store, "#other".to_string(), "greet".to_string(), "elsewhere".to_string()), Ok(()));
    assert_eq!(session.serve(&mut store, &config(), message("#chan", Privilege::Regular, "!greet")), vec![]);
}

#[test]
fn raw_lines_run_from_add_to_reply_to_remove() {
    let mut store = CommandStore::new();
    let mut session = joined();
    assert_eq!(session.map_command(&mut store, &config(), VIEWER_LINE), vec![]);
    assert_eq!(session.map_command(&mut store, &config(), OWNER_LINE), vec![]);
    assert_eq!(get(&store, "#chan", "greet").unwrap().value, "hello there");
    assert_eq!(session.map_command(&mut store, &config(), VIEWER_LINE), vec![say("#chan", "hello there")]);
    assert_eq!(session.map_command(&mut store, &config(), MOD_LINE), vec![]);
    assert_eq!(get(&store, "#chan", "greet"), Err(StoreError::NotFound));
    assert_eq!(session.map_command(&mut store, &config(), VIEWER_LINE), vec![]);
}

#[test]
fn raw_admin_lines_from_viewers_change_nothing() {
    let mut store = CommandStore::new();
    let mut session = joined();
    assert_eq!(session.map_command(&mut store, &config(), VIEWER_ADMIN_LINE), vec![]);
    assert_eq!(store.len(), 0);
}

#[test]
fn raw_lines_that_cannot_be_read_are_skipped() {
    let mut store = CommandStore::new();
    let mut session = joined();
    assert_eq!(session.map_command(&mut store, &config(), ""), vec![]);
    assert_eq!(session.state, SessionState::Joined);
    assert_eq!(
        session.map_command(&mut store, &config(), "PING :tmi.twitch.tv"),
        vec![Action::Pong { nonce: Some("tmi.twitch.tv".to_string()) }]
    );
    assert_eq!(
        session.map_command(&mut store, &config(), ":tmi.twitch.tv RECONNECT"),
        vec![Action::Reconnect, join_all()]
    );
    assert_eq!(session.state, SessionState::Connecting { first: false });
    assert_eq!(session.map_command(&mut store, &config(), VIEWER_LINE), vec![]);
}

#[test]
fn perform_hands_on_what_is_not_for_the_table() {
    let mut store = CommandStore::new();
    assert_eq!(perform(&mut store, say("#chan", "pong")), vec![say("#chan", "pong")]);
    assert_eq!(perform(&mut store, Action::Reconnect), vec![Action::Reconnect]);
    assert_eq!(perform(&mut store, join_all()), vec![join_all()]);
    assert_eq!(perform(&mut store, Action::Stop), vec![Action::Stop]);
    assert_eq!(store.len(), 0);
}

#[test]
fn perform_writes_deletes_and_looks_up() {
    let mut store = CommandStore::new();
    assert_eq!(
        perform(
            &mut store,
            Action::Upsert { channel: "#chan".to_string(), name: "greet".to_string(), value: "hi".to_string() }
        ),
        vec![]
    );
    assert_eq!(
        perform(&mut store, Action::Get { channel: "#chan".to_string(), name: "greet".to_string() }),
        vec![say("#chan", "hi")]
    );
    assert_eq!(
        perform(&mut store, Action::Delete { channel: "#chan".to_string(), name: "greet".to_string() }),
        vec![]
    );
    assert_eq!(
        perform(&mut store, Action::Get { channel: "#chan".to_string(), name: "greet".to_string() }),
        vec![]
    );
}

#[test]
fn decode_survives_odd_lines() {
    let lines = [
        " ",
        "@",
        ":",
        "@a=b",
        "@;=; :! PRIVMSG # :",
        ":nick!user@host",
        "PRIVMSG",
        "PRIVMSG #chan",
        "PRIVMSG #chan :hi",
        "@badges=broadcaster/1 PRIVMSG #chan :!v ping",
        "\u{1f600}\u{1f600} \u{e9}",
        "@badge-info=;badges=\u{e9}/1;room-id=1;id=x;user-id=2;display-name=\u{e9};tmi-sent-ts=0 :a!a@a PRIVMSG #\u{e9} :\u{e9}",
        "PING :",
        "RECONNECT extra words",
    ];
    for line in lines {
        let decoded = decode(line);
        assert!(decoded.is_ok() || decoded == Err(SessionError::Protocol));
    }
}

#[test]
fn a_replace_never_shows_the_key_missing() {
    let mut store = CommandStore::new();
    for round in 0..20 {
        assert_eq!(add(&mut store, "#chan".to_string(), "greet".to_string(), format!("hello {round}")), Ok(()));
        assert_eq!(get(&store, "#chan", "greet").unwrap().value, format!("hello {round}"));
        assert_eq!(add(&mut store, "#chan".to_string(), format!("other{round}"), "x".to_string()), Ok(()));
        assert_eq!(get(&store, "#chan", "greet").unwrap().value, format!("hello {round}"));
    }
    assert_eq!(store.len(), 21);
}

fn tagged(pairs: usize, rest: &str) -> String {
    let tags: Vec<String> = (0..pairs).map(|i| format!("k{i}=v")).collect();
    format!("@{} {rest}", tags.join(";"))
}

#[test]
fn the_limits_are_those_of_the_protocol_library() {
    assert_eq!(TAG_ROOM, 128);
    assert_eq!(TAG_SPAN, 65536);
    assert_eq!(LINE_SPAN, 4294967295);
}

#[test]
fn lines_within_the_limits_are_readable() {
    assert!(is_readable(""));
    assert!(is_readable("PING :tmi.twitch.tv"));
    assert!(is_readable(OWNER_LINE));
    assert!(is_readable(&tagged(128, ":tmi.twitch.tv RECONNECT")));
    assert!(is_readable(&format!("PRIVMSG #chan :{}", "=".repeat(500))));
    assert!(is_readable(&format!("{} :a!a@a PRIVMSG #chan :{}", tagged(3, ""), "=".repeat(500))));
    assert!(is_readable(&format!("@{}", "a=b;".repeat(500))));
    assert!(is_readable(&format!("@a={} x", "v".repeat(65535))));
    assert!(is_readable(&format!("@{}=v x", "k".repeat(65535))));
    assert!(is_readable(&format!("@{} x", "k".repeat(70000))));
    assert!(is_readable(&format!("@a={};b={} x", "v".repeat(65535), "w".repeat(65535))));
}

#[test]
fn only_the_equals_that_open_a_pair_count() {
    assert!(is_readable(&format!("@{} x", "=".repeat(129))));
    assert!(is_readable(&format!("@reply-parent-msg-body={};id=x x", "=".repeat(400))));
    assert!(is_readable(&format!("@{}a=b x", ";".repeat(300))));
    assert!(is_readable(&format!("@{} x", "a=b=c=d;".repeat(128))));
    assert!(!is_readable(&format!("@{} x", "a=b=c=d;".repeat(129))));
}

#[test]
fn lines_beyond_the_limits_are_not_readable() {
    assert!(!is_readable(&tagged(129, ":tmi.twitch.tv RECONNECT")));
    assert!(!is_readable(&format!("@{} x", "=;".repeat(129))));
    assert!(!is_readable(&format!("@a={} x", "v".repeat(65536))));
    assert!(!is_readable(&format!("@a={};b=c x", "v".repeat(65536))));
    assert!(!is_readable(&format!("@{}=v x", "k".repeat(65536))));
    assert!(!is_readable(&format!("@a={} x", "\u{e9}".repeat(40000))));
}

#[test]
fn a_reply_to_a_text_full_of_equals_is_read() {
    let line = format!(
        "@badge-info=;badges=;color=;display-name=Viewer;emotes=;flags=;id=5b4f63a9-776f-4fce-bf3c-d9707f52e32d;mod=0;reply-parent-display-name=Owner;reply-parent-msg-body={};reply-parent-msg-id=6b13e51b-7ecb-43b5-ba5b-2bb5288df696;reply-parent-user-id=37940952;reply-parent-user-login=owner;reply-thread-parent-msg-id=6b13e51b-7ecb-43b5-ba5b-2bb5288df696;reply-thread-parent-user-login=owner;room-id=37940952;subscriber=0;tmi-sent-ts=1673925983585;turbo=0;user-id=133651738;user-type= :viewer!viewer@viewer.tmi.twitch.tv PRIVMSG #chan :!greet",
        "=".repeat(300)
    );
    assert_eq!(
        decode(&line),
        Ok(ChatEvent::Message {
            channel: "#chan".to_string(),
            sender: Privilege::Regular,
            text: "!greet".to_string(),
        })
    );
}

#[test]
fn lines_of_other_commands_are_not_typed() {
    assert_eq!(
        decode("@emote-only=0;followers-only=9223372036854775807;r9k=0;room-id=1;slow=0;subs-only=0 :tmi.twitch.tv ROOMSTATE #chan"),
        Ok(ChatEvent::Other)
    );
    assert_eq!(decode(":tmi.twitch.tv ROOMSTATE #chan"), Ok(ChatEvent::Other));
    assert_eq!(decode(":tmi.twitch.tv NOTICE #chan"), Ok(ChatEvent::Other));
    assert_eq!(decode("@msg-id=x :tmi.twitch.tv USERNOTICE #chan"), Ok(ChatEvent::Other));
    assert_eq!(decode("CLEARCHAT"), Ok(ChatEvent::Other));
    assert_eq!(decode("PONG :tmi.twitch.tv"), Ok(ChatEvent::Other));
}

#[test]
fn decode_takes_a_line_with_all_tag_slots_used() {
    assert_eq!(decode(&tagged(128, ":tmi.twitch.tv RECONNECT")), Ok(ChatEvent::Reconnect));
}

#[test]
fn decode_rejects_a_line_with_more_tags_than_slots() {
    assert_eq!(decode(&tagged(129, ":tmi.twitch.tv RECONNECT")), Err(SessionError::Protocol));
    assert_eq!(
        decode(&tagged(1000, ":a!a@a.tmi.twitch.tv PRIVMSG #chan :!greet")),
        Err(SessionError::Protocol)
    );
}

#[test]
fn decode_rejects_a_tag_too_long_to_measure() {
    let line = format!(
        "@badges=;id=x;room-id=1;user-id=2;display-name={};tmi-sent-ts=0 :a!a@a PRIVMSG #chan :hi",
        "\u{e9}".repeat(40000)
    );
    assert_eq!(decode(&line), Err(SessionError::Protocol));
}

#[test]
fn an_unreadable_line_does_not_end_the_session() {
    let mut store = CommandStore::new();
    let mut session = joined();
    assert_eq!(
        session.map_command(&mut store, &config(), &tagged(500, ":tmi.twitch.tv RECONNECT")),
        vec![]
    );
    assert_eq!(session.state, SessionState::Joined);
    assert_eq!(session.map_command(&mut store, &config(), VIEWER_LINE), vec![]);
}

#[test]
fn decode_survives_numbers_at_their_limits() {
    let tags = [
        "tmi-sent-ts=9223372036854775807",
        "tmi-sent-ts=-9223372036854775808",
        "tmi-sent-ts=1594545155039;bits=18446744073709551615",
        "tmi-sent-ts=1594545155039;pinned-chat-paid-amount=9223372036854775807;pinned-chat-paid-currency=USD;pinned-chat-paid-exponent=9223372036854775807;pinned-chat-paid-level=TEN;pinned-chat-paid-is-system-message=255",
        "tmi-sent-ts=1594545155039;badge-info=subscriber/18446744073709551615;badges=subscriber/3000",
    ];
    for extra in tags {
        let line = format!(
            "@{extra};display-name=V;id=x;room-id=1;user-id=2 :v!v@v.tmi.twitch.tv PRIVMSG #chan :!greet"
        );
        let decoded = decode(&line);
        assert!(decoded.is_ok() || decoded == Err(SessionError::Protocol));
    }
}
