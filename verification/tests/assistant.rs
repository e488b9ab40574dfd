use moblin_assistant::assistant::{Assistant, ChatStep, SocketMessage, SocketReply};
use moblin_assistant::model::Action;
use moblin_assistant::protocol::{
    ChatMessage, IdentifiedResult, IdentifyMessage, MessageToAssistant, MessageToStreamer,
    RequestData, TwitchStartMessage, YouTubeStartMessage,
};
use moblin_assistant::streamer::{hardcoded_messages, Outgoing, StreamerState};
use moblin_assistant::streamers::{
    DisconnectedStreamer, Streamer, Streamers, CLEANUP_INTERVAL_SECS,
};
use moblin_assistant::time::Timestamp;
use moblin_assistant::twitch::{
    can_create_segments, create_segments, Emote, PrivmsgMessage, ServerMessage, TwitchUserBasics,
};
use moblin_assistant::youtube::{
    count_messages,
    Action as YouTubeAction, AddChatItemAction, AddChatItemActionItem, Author, ChatDescription,
    ContinuationContents, Continuations, GetLiveChat, InvalidationContinuationData,
    LiveChatContinuation, Message, Run, YouTubeSession,
};

const HOUR: u128 = 3_600_000_000_000;
const AUTHENTICATION: &str = "+0KngH9YY9XVezSs7hsZ7HjZlL9z1ru5MJ1id876Vc8=";

fn connect(assistant: &mut Assistant) -> u64 {
    assert!(assistant.can_connect());
    let (c, hello) = assistant.connect_with_secrets(
        "test123".to_string(),
        "1.2.3.4:5".to_string(),
        "challenge".to_string(),
        "salt".to_string(),
    );
    assert_eq!(hello.to, c);
    assert!(matches!(hello.message, MessageToStreamer::Hello(_)));
    c
}

fn identify(authentication: &str, streamer_id: Option<&str>) -> MessageToAssistant {
    MessageToAssistant::Identify(IdentifyMessage {
        authentication: authentication.to_string(),
        streamer_id: streamer_id.map(|s| s.to_string()),
    })
}

fn ping() -> MessageToAssistant {
    MessageToAssistant::Ping(serde_json::Value::Null)
}

fn twitch_start(channel_name: Option<&str>) -> MessageToAssistant {
    MessageToAssistant::TwitchStart(TwitchStartMessage {
        channel_name: channel_name.map(|s| s.to_string()),
        channel_id: "1".to_string(),
        access_token: "t".to_string(),
    })
}

fn youtube_start(video_id: &str) -> MessageToAssistant {
    MessageToAssistant::YouTubeStart(YouTubeStartMessage {
        video_id: video_id.to_string(),
    })
}

fn chat_message(text: &str) -> ServerMessage {
    ServerMessage::Privmsg(PrivmsgMessage {
        message_text: text.to_string(),
        is_action: false,
        sender: TwitchUserBasics {
            id: "1".to_string(),
            login: "ann".to_string(),
            name: "Ann".to_string(),
        },
        badges: vec![],
        bits: None,
        name_color: None,
        emotes: vec![],
        message_id: text.to_string(),
        server_timestamp: Timestamp::new(0, 0).unwrap(),
    })
}

fn result(action: &Action, to: u64) -> IdentifiedResult {
    match action {
        Action::Send(Outgoing {
            to: c,
            message: MessageToStreamer::Identified(identified),
        }) => {
            assert_eq!(*c, to);
            identified.result
        }
        _ => panic!("Expected an answer"),
    }
}

fn history(action: &Action, to: u64) -> (i32, Vec<String>) {
    match action {
        Action::Send(outgoing) => {
            assert_eq!(outgoing.to, to);
            request(outgoing, true)
        }
        _ => panic!("Expected a request"),
    }
}

fn request(outgoing: &Outgoing, history: bool) -> (i32, Vec<String>) {
    match &outgoing.message {
        MessageToStreamer::Request(request) => {
            let RequestData::ChatMessages(chat) = &request.data;
            assert_eq!(chat.history, history);
            let ids = chat
                .messages
                .iter()
                .map(|m| match &m.message_id {
                    Some(id) => id.clone(),
                    None => m.segments[0].text.clone().unwrap(),
                })
                .collect();
            (request.id, ids)
        }
        _ => panic!("Expected a request"),
    }
}

/// Identifies the connection and gives the number and the messages of the history.
fn accept(assistant: &mut Assistant, c: u64, id: Option<&str>) -> (i32, Vec<String>) {
    let actions = assistant.handle_message(c, identify(AUTHENTICATION, id));
    assert_eq!(actions.len(), 2);
    assert_eq!(result(&actions[0], c), IdentifiedResult::Accepted {});
    history(&actions[1], c)
}

/// What a streamer that nothing is kept for is sent.
fn hardcoded() -> Vec<String> {
    vec![
        "Welcome to the assistant! ".to_string(),
        "Chat messages show up here. ".to_string(),
    ]
}

fn start_twitch(assistant: &mut Assistant, c: u64) -> u64 {
    let actions = assistant.handle_message(c, twitch_start(Some("MyChannel")));
    assert_eq!(actions.len(), 1);
    match &actions[0] {
        Action::StartTwitchChat {
            state,
            channel_name,
        } => {
            assert_eq!(channel_name, "mychannel");
            *state
        }
        _ => panic!("Expected a Twitch chat"),
    }
}

#[test]
fn a_fresh_connection_gets_a_random_challenge() {
    let mut assistant = Assistant::new();
    let (a, hello) = assistant.connect("p".to_string(), "x".to_string());
    let (b, _) = assistant.connect("p".to_string(), "y".to_string());
    assert_ne!(a, b);
    assert!(assistant.has_connection(a));
    assert!(assistant.has_connection(b));
    assert!(!assistant.has_connection(b + 1));
    match hello.message {
        MessageToStreamer::Hello(hello) => {
            assert_eq!(hello.authentication.challenge.len(), 128);
            assert_eq!(hello.authentication.salt.len(), 128);
            assert_ne!(hello.authentication.challenge, hello.authentication.salt);
        }
        _ => panic!("Expected hello"),
    }
}

#[test]
fn the_right_password_is_accepted_once() {
    let mut assistant = Assistant::new();
    let c = connect(&mut assistant);
    assert!(assistant.can_handle_message(c, &identify(AUTHENTICATION, None)));
    assert_eq!(accept(&mut assistant, c, None), (1, hardcoded()));
    assert_eq!(assistant.streamer_count(), 0);
    let actions = assistant.handle_message(c, identify(AUTHENTICATION, Some("me")));
    assert_eq!(actions.len(), 1);
    assert_eq!(
        result(&actions[0], c),
        IdentifiedResult::AlreadyIdentified {}
    );
    assert_eq!(assistant.streamer_count(), 0);
}

#[test]
fn a_streamer_without_history_is_sent_the_hardcoded_messages() {
    let messages = hardcoded_messages();
    assert_eq!(messages.len(), 2);
    for (i, message) in messages.iter().enumerate() {
        assert_eq!(message.id, i as i32 - 1);
        assert_eq!(message.user.as_deref(), Some("Moblin assistant"));
        assert_eq!(message.display_name.as_deref(), Some("Moblin assistant"));
        assert_eq!(message.timestamp, "1970-01-01T00:00:00+00:00");
        assert_eq!(message.segments.len(), 1);
        assert_eq!(message.segments[0].id, 0);
        assert_eq!(message.segments[0].text.as_ref(), Some(&hardcoded()[i]));
        assert!(message.segments[0].url.is_none());
    }
    let mut state = StreamerState::new(1);
    assert!(!state.has_chat_messages());
    assert_eq!(
        request(&state.send_chat_history().unwrap(), true),
        (1, vec![])
    );
    assert_eq!(
        request(&state.send_hardcoded_messages().unwrap(), true),
        (2, hardcoded())
    );
    state.append_chat_message(stored("one".to_string()));
    assert!(state.has_chat_messages());
    assert_eq!(
        request(&state.send_chat_history().unwrap(), true),
        (4, vec!["one".to_string()])
    );
}

#[test]
fn a_wrong_password_is_refused_and_changes_nothing() {
    let mut assistant = Assistant::new();
    let c = connect(&mut assistant);
    let actions = assistant.handle_message(c, identify("test123", Some("me")));
    assert_eq!(actions.len(), 1);
    assert_eq!(result(&actions[0], c), IdentifiedResult::WrongPassword {});
    assert_eq!(assistant.streamer_count(), 0);
    assert!(assistant
        .handle_message(c, twitch_start(Some("a")))
        .is_empty());
    assert_eq!(accept(&mut assistant, c, Some("me")), (1, hardcoded()));
    assert_eq!(assistant.streamer_count(), 1);
}

#[test]
fn pings_are_always_answered() {
    let mut assistant = Assistant::new();
    let c = connect(&mut assistant);
    for _ in 0..2 {
        let actions = assistant.handle_message(c, ping());
        assert_eq!(actions.len(), 1);
        match &actions[0] {
            Action::Send(outgoing) => {
                assert_eq!(outgoing.to, c);
                assert!(matches!(outgoing.message, MessageToStreamer::Pong {}));
            }
            _ => panic!("Expected a pong"),
        }
        accept_if_new(&mut assistant, c);
    }
}

fn accept_if_new(assistant: &mut Assistant, c: u64) {
    let _ = assistant.handle_message(c, identify(AUTHENTICATION, None));
}

#[test]
fn events_and_responses_are_ignored() {
    let mut assistant = Assistant::new();
    let c = connect(&mut assistant);
    for _ in 0..2 {
        assert!(assistant
            .handle_message(c, MessageToAssistant::Event(serde_json::Value::Bool(true)))
            .is_empty());
        assert!(assistant
            .handle_message(c, MessageToAssistant::Response(serde_json::Value::Null))
            .is_empty());
        accept_if_new(&mut assistant, c);
    }
}

#[test]
fn chats_are_started_once_and_only_for_the_identified() {
    let mut assistant = Assistant::new();
    let c = connect(&mut assistant);
    assert!(assistant
        .handle_message(c, twitch_start(Some("a")))
        .is_empty());
    assert!(assistant.handle_message(c, youtube_start("v")).is_empty());
    accept(&mut assistant, c, None);
    assert!(assistant.handle_message(c, twitch_start(None)).is_empty());
    let s = start_twitch(&mut assistant, c);
    assert!(assistant.has_state(s));
    assert!(assistant
        .handle_message(c, twitch_start(Some("b")))
        .is_empty());
    let actions = assistant.handle_message(c, youtube_start("Video"));
    assert_eq!(actions.len(), 1);
    match &actions[0] {
        Action::StartYouTubeChat { state, video_id } => {
            assert_eq!(*state, s);
            assert_eq!(video_id, "Video");
        }
        _ => panic!("Expected a YouTube chat"),
    }
    assert!(assistant.handle_message(c, youtube_start("v")).is_empty());
    assistant.end_youtube_chat(s);
    assert_eq!(assistant.handle_message(c, youtube_start("v")).len(), 1);
    assert!(assistant
        .handle_message(c, twitch_start(Some("b")))
        .is_empty());
    assistant.end_twitch_chat(s);
    assert_eq!(start_twitch(&mut assistant, c), s);
}

#[test]
fn channel_names_are_lowered_as_unicode_does() {
    let mut assistant = Assistant::new();
    let c = connect(&mut assistant);
    accept(&mut assistant, c, None);
    let actions = assistant.handle_message(c, twitch_start(Some("ÀΣB1")));
    match &actions[0] {
        Action::StartTwitchChat { channel_name, .. } => assert_eq!(channel_name, "àσb1"),
        _ => panic!("Expected a Twitch chat"),
    }
}

#[test]
fn an_accepted_connection_starts_a_chat_by_its_name() {
    let mut assistant = Assistant::new();
    let c = connect(&mut assistant);
    assert!(assistant
        .start_twitch_chat(c, "Name".to_string())
        .is_empty());
    let actions = assistant.handle_identify_correct_password(c, Some("me".to_string()));
    assert_eq!(actions.len(), 2);
    assert_eq!(result(&actions[0], c), IdentifiedResult::Accepted {});
    assert_eq!(history(&actions[1], c), (1, hardcoded()));
    assert_eq!(assistant.streamer_count(), 1);
    let actions = assistant.start_twitch_chat(c, "Name".to_string());
    assert_eq!(actions.len(), 1);
    match &actions[0] {
        Action::StartTwitchChat { channel_name, .. } => assert_eq!(channel_name, "Name"),
        _ => panic!("Expected a Twitch chat"),
    }
    assert!(assistant
        .start_twitch_chat(c, "Name".to_string())
        .is_empty());
}

#[test]
fn chat_messages_are_sent_and_kept() {
    let mut assistant = Assistant::new();
    let c = connect(&mut assistant);
    accept(&mut assistant, c, Some("me"));
    let s = start_twitch(&mut assistant, c);
    assert!(matches!(
        assistant.handle_twitch_message(s, &ServerMessage::Other),
        ChatStep::Going(None)
    ));
    for (i, text) in ["one", "two"].iter().enumerate() {
        assert!(assistant.has_ids(s, 1));
        match assistant.handle_twitch_message(s, &chat_message(text)) {
            ChatStep::Going(Some(outgoing)) => {
                assert_eq!(outgoing.to, c);
                assert_eq!(
                    request(&outgoing, false),
                    (i as i32 + 2, vec![text.to_string()])
                );
            }
            _ => panic!("Expected a request"),
        }
    }
    assistant.disconnect(c, 0);
    assert!(!assistant.has_connection(c));
    assert!(matches!(
        assistant.handle_twitch_message(s, &chat_message("three")),
        ChatStep::Going(None)
    ));
    let d = connect(&mut assistant);
    assert_eq!(
        accept(&mut assistant, d, Some("me")),
        (
            5,
            vec!["one".to_string(), "two".to_string(), "three".to_string()]
        )
    );
    assert!(assistant
        .handle_message(d, twitch_start(Some("again")))
        .is_empty());
    assert_eq!(assistant.streamer_count(), 1);
}

#[test]
fn another_name_finds_another_history() {
    let mut assistant = Assistant::new();
    let c = connect(&mut assistant);
    accept(&mut assistant, c, Some("me"));
    let s = start_twitch(&mut assistant, c);
    assistant.handle_twitch_message(s, &chat_message("one"));
    assistant.disconnect(c, 0);
    let d = connect(&mut assistant);
    assert_eq!(accept(&mut assistant, d, Some("you")), (1, hardcoded()));
    let e = connect(&mut assistant);
    assert_eq!(accept(&mut assistant, e, None), (1, hardcoded()));
    assert_eq!(assistant.streamer_count(), 2);
}

#[test]
fn a_second_connection_takes_the_state_over() {
    let mut assistant = Assistant::new();
    let c = connect(&mut assistant);
    accept(&mut assistant, c, Some("me"));
    let s = start_twitch(&mut assistant, c);
    assistant.handle_twitch_message(s, &chat_message("one"));
    let d = connect(&mut assistant);
    let actions = assistant.handle_message(d, identify(AUTHENTICATION, Some("me")));
    assert_eq!(actions.len(), 3);
    assert!(matches!(&actions[0], Action::Close(closed) if *closed == c));
    assert_eq!(result(&actions[1], d), IdentifiedResult::Accepted {});
    assert_eq!(history(&actions[2], d), (3, vec!["one".to_string()]));
    match assistant.handle_twitch_message(s, &chat_message("two")) {
        ChatStep::Going(Some(outgoing)) => assert_eq!(outgoing.to, d),
        _ => panic!("Expected a request"),
    }
    assert!(assistant
        .handle_message(c, youtube_start("v"))
        .is_empty());
    assistant.disconnect(c, 0);
    assistant.cleanup(10 * HOUR);
    assert_eq!(assistant.streamer_count(), 1);
    assert!(matches!(
        assistant.handle_twitch_message(s, &chat_message("three")),
        ChatStep::Going(Some(_))
    ));
}

#[test]
fn streamers_are_forgotten_after_an_hour() {
    let mut assistant = Assistant::new();
    let c = connect(&mut assistant);
    accept(&mut assistant, c, Some("me"));
    let s = start_twitch(&mut assistant, c);
    assistant.handle_twitch_message(s, &chat_message("one"));
    assistant.disconnect(c, 1000);
    assistant.cleanup(0);
    assistant.cleanup(1000 + HOUR - 1);
    assert_eq!(assistant.streamer_count(), 1);
    assert!(assistant.has_state(s));
    assistant.cleanup(1000 + HOUR);
    assert_eq!(assistant.streamer_count(), 0);
    assert!(!assistant.has_state(s));
    assert!(matches!(
        assistant.handle_twitch_message(s, &chat_message("two")),
        ChatStep::Ended
    ));
    assistant.end_twitch_chat(s);
    assistant.end_youtube_chat(s);
    let d = connect(&mut assistant);
    assert_eq!(accept(&mut assistant, d, Some("me")), (1, hardcoded()));
}

#[test]
fn streamers_without_a_name_leave_nothing() {
    let mut assistant = Assistant::new();
    let c = connect(&mut assistant);
    accept(&mut assistant, c, None);
    let s = start_twitch(&mut assistant, c);
    let d = connect(&mut assistant);
    assistant.disconnect(c, 0);
    assistant.disconnect(d, 0);
    assert!(!assistant.has_state(s));
    assert_eq!(assistant.streamer_count(), 0);
}

#[test]
fn socket_messages() {
    let mut assistant = Assistant::new();
    let c = connect(&mut assistant);
    match assistant.receive(c, SocketMessage::Text(Some(ping()))) {
        Some(SocketReply::Act(actions)) => assert_eq!(actions.len(), 1),
        _ => panic!("Expected actions"),
    }
    match assistant.receive(c, SocketMessage::Ping(vec![1, 2, 3])) {
        Some(SocketReply::Pong(data)) => assert_eq!(data, vec![1, 2, 3]),
        _ => panic!("Expected a pong"),
    }
    assert!(matches!(
        assistant.receive(c, SocketMessage::Other),
        Some(SocketReply::Ignore)
    ));
    assert!(matches!(
        assistant.handle_socket_message(c, SocketMessage::Text(None)),
        SocketReply::End
    ));
    assert!(matches!(
        assistant.receive(c, SocketMessage::PongFailed),
        Some(SocketReply::End)
    ));
    assert!(matches!(
        assistant.receive(c, SocketMessage::Close),
        Some(SocketReply::End)
    ));
}

fn answer(texts: &[&str], token: Option<&str>) -> GetLiveChat {
    let action = |text: &&str| YouTubeAction {
        add_chat_item_action: Some(AddChatItemAction {
            item: AddChatItemActionItem {
                live_chat_text_message_renderer: Some(ChatDescription {
                    author_name: Author {
                        simple_text: "Ann".to_string(),
                    },
                    message: Some(Message {
                        runs: vec![Run {
                            text: Some(text.to_string()),
                            emoji: None,
                        }],
                    }),
                    purchase_amount_text: None,
                    header_subtext: None,
                    author_badges: None,
                }),
                live_chat_paid_message_renderer: None,
                live_chat_paid_sticker_renderer: None,
                live_chat_membership_item_renderer: None,
            },
        }),
    };
    GetLiveChat {
        continuation_contents: ContinuationContents {
            live_chat_continuation: LiveChatContinuation {
                continuations: vec![Continuations {
                    invalidation_continuation_data: token.map(|t| InvalidationContinuationData {
                        continuation: t.to_string(),
                    }),
                }],
                actions: Some(texts.iter().map(action).collect()),
            },
        },
    }
}

#[test]
fn youtube_messages_reach_the_streamer() {
    let mut assistant = Assistant::new();
    let c = connect(&mut assistant);
    accept(&mut assistant, c, None);
    let actions = assistant.handle_message(c, youtube_start("v"));
    let s = match &actions[0] {
        Action::StartYouTubeChat { state, .. } => *state,
        _ => panic!("Expected a YouTube chat"),
    };
    let mut session = YouTubeSession::new("start".to_string());
    let (outgoing, wait) = assistant
        .handle_live_chat(s, &mut session, &answer(&["hi there", " "], Some("next")))
        .unwrap();
    assert_eq!(outgoing.len(), 1);
    assert_eq!(outgoing[0].to, c);
    assert_eq!(wait.unwrap(), 3000);
    assert_eq!(session.request().continuation, "next");
    let (_, wait) = assistant
        .handle_live_chat(s, &mut session, &answer(&[], None))
        .unwrap();
    assert!(wait.is_err());
    assistant.disconnect(c, 0);
    assert!(assistant
        .handle_live_chat(s, &mut session, &answer(&["hi"], Some("x")))
        .is_none());
    assert_eq!(session.request().continuation, "next");
}

fn stored(text: String) -> ChatMessage {
    ChatMessage {
        id: 1,
        platform: moblin_assistant::protocol::Platform::Kick {},
        message_id: Some(text),
        display_name: None,
        user: None,
        user_id: None,
        user_color: None,
        user_badges: vec!["b".to_string()],
        segments: vec![],
        timestamp: "t".to_string(),
        is_action: false,
        is_moderator: false,
        is_subscriber: false,
        is_owner: false,
        bits: None,
    }
}

#[test]
fn what_has_no_date_or_no_number_is_noticed() {
    let mut assistant = Assistant::new();
    let c = connect(&mut assistant);
    accept(&mut assistant, c, None);
    let s = start_twitch(&mut assistant, c);
    assert!(assistant.can_handle_twitch_message(s, &ServerMessage::Other));
    assert!(assistant.can_handle_twitch_message(s, &chat_message("hi")));
    let mut message = match chat_message("hi") {
        ServerMessage::Privmsg(message) => message,
        ServerMessage::Other => panic!("Expected a message"),
    };
    message.server_timestamp.nanos = 2_000_000_000;
    let message = ServerMessage::Privmsg(message);
    assert!(!assistant.can_handle_twitch_message(s, &message));
    assert!(assistant.can_handle_twitch_message(s + 1, &message));
    assert!(assistant.can_handle_live_chat(s, &answer(&["a", " "], None)));
    assert!(assistant.has_ids(s, 2_147_483_646));
    assert!(!assistant.has_ids(s, 2_147_483_647));
    assert!(assistant.has_ids(s + 1, 2_147_483_648));
}

#[test]
fn segments_that_can_be_numbered() {
    assert!(can_create_segments("", &[]));
    assert!(can_create_segments("hello world", &[]));
    let text: String = std::iter::repeat('a').take(50_000).collect();
    let emotes: Vec<Emote> = (50_000..100_000)
        .map(|i| Emote {
            id: String::new(),
            char_range: i..i + 1,
            code: String::new(),
        })
        .collect();
    assert!(can_create_segments(&text, &emotes));
    assert_eq!(create_segments(&text, &emotes).len(), 1);
}

#[test]
fn messages_that_show_nothing_are_not_counted() {
    assert_eq!(count_messages(&answer(&[], None)), Some(0));
    assert_eq!(count_messages(&answer(&["a", " ", "b c"], None)), Some(2));
}

#[test]
fn cleanups_are_fifteen_minutes_apart() {
    assert_eq!(CLEANUP_INTERVAL_SECS, 15 * 60);
}

#[test]
fn the_newest_hundred_messages_are_kept() {
    let mut state = StreamerState::new(1);
    for i in 1..=250 {
        assert!(state.has_request_ids(1));
        let outgoing = state.append_chat_message(stored(format!("{}", i))).unwrap();
        assert_eq!(request(&outgoing, false), (i, vec![format!("{}", i)]));
    }
    let (id, messages) = request(&state.send_chat_history().unwrap(), true);
    assert_eq!(id, 251);
    let expected: Vec<String> = (151..=250).map(|i| format!("{}", i)).collect();
    assert_eq!(messages, expected);
}

#[test]
fn storing_gives_out_no_numbers() {
    let mut state = StreamerState::new(1);
    for i in 1..=101 {
        state.store_chat_message(stored(format!("{}", i)));
    }
    let (id, messages) = request(&state.send_chat_history().unwrap(), true);
    assert_eq!(id, 1);
    let expected: Vec<String> = (2..=101).map(|i| format!("{}", i)).collect();
    assert_eq!(messages, expected);
}

#[test]
fn numbers_run_out_at_the_end_of_their_range() {
    let mut state = StreamerState::new(1);
    assert!(state.has_request_ids(2_147_483_647));
    assert!(!state.has_request_ids(2_147_483_648));
    assert_eq!(state.next_chat_message_id(), 1);
    assert_eq!(state.next_chat_message_id(), 2);
    assert!(state.has_chat_message_ids(2_147_483_645));
    assert!(!state.has_chat_message_ids(2_147_483_646));
}

#[test]
fn a_state_notes_which_chats_are_read() {
    let mut state = StreamerState::new(1);
    assert!(state.start_twitch_chat());
    assert!(!state.start_twitch_chat());
    assert!(state.start_youtube_chat());
    assert!(!state.start_youtube_chat());
    state.destroy_twitch_chat();
    assert!(!state.start_youtube_chat());
    assert!(state.start_twitch_chat());
    state.destroy_youtube_chat();
    assert!(state.start_youtube_chat());
    assert!(!state.start_twitch_chat());
}

#[test]
fn streamers_by_name() {
    let name = |s: &str| s.to_string();
    let mut streamers = Streamers::new();
    assert_eq!(streamers.len(), 0);
    streamers.insert(name("a"), Streamer::Connected(1));
    streamers.insert(name("b"), Streamer::Connected(2));
    let gone = Streamer::Disconnected(DisconnectedStreamer::new(7, 5));
    streamers.insert(name("a"), gone);
    assert_eq!(streamers.len(), 2);
    assert_eq!(streamers.get(&name("a")), Some(gone));
    assert_eq!(streamers.get(&name("c")), None);
    assert_eq!(streamers.remove_expired(4), Vec::<u64>::new());
    assert_eq!(streamers.remove_expired(5 + HOUR), vec![7]);
    assert_eq!(streamers.remove(&name("a")), None);
    assert_eq!(
        streamers.remove(&name("b")),
        Some(Streamer::Connected(2))
    );
    assert_eq!(streamers.len(), 0);
}
