use moblin_assistant::protocol::{ChatMessage, MessageToStreamer, Platform, RequestData};
use moblin_assistant::streamer::{Outgoing, StreamerState};
use moblin_assistant::time::Timestamp;
use moblin_assistant::youtube::{
    after_youtube_session, append_live_chat, append_youtube_message, check_chat_status, check_page_status,
    create_chat_message, create_youtube_segments, find_initial_continuation, is_youtube_member, live_chat_page_url,
    live_chat_request, youtube_chat_session, Action, AddChatItemAction, AddChatItemActionItem,
    Author, AuthorBadge, AuthorBadgeRenderer, BadgeIcon, ChatDescription, ContinuationContents,
    Continuations, Emoji, GetLiveChat, Image, InvalidationContinuationData, LiveChatContinuation,
    Message, Run, YouTubeError, YouTubeSession,
};

fn run(text: &str) -> Run {
    Run {
        text: Some(text.to_string()),
        emoji: None,
    }
}

fn description(author: &str, text: &str) -> ChatDescription {
    ChatDescription {
        author_name: Author {
            simple_text: author.to_string(),
        },
        message: Some(Message {
            runs: vec![run(text)],
        }),
        purchase_amount_text: None,
        header_subtext: None,
        author_badges: None,
    }
}

fn item() -> AddChatItemActionItem {
    AddChatItemActionItem {
        live_chat_text_message_renderer: None,
        live_chat_paid_message_renderer: None,
        live_chat_paid_sticker_renderer: None,
        live_chat_membership_item_renderer: None,
    }
}

fn action(item: AddChatItemActionItem) -> Action {
    Action {
        add_chat_item_action: Some(AddChatItemAction { item }),
    }
}

fn text_action(author: &str, text: &str) -> Action {
    let mut item = item();
    item.live_chat_text_message_renderer = Some(description(author, text));
    action(item)
}

fn continuation(token: Option<&str>) -> Continuations {
    Continuations {
        invalidation_continuation_data: token.map(|t| InvalidationContinuationData {
            continuation: t.to_string(),
        }),
    }
}

fn live_chat(actions: Option<Vec<Action>>, continuations: Vec<Continuations>) -> GetLiveChat {
    GetLiveChat {
        continuation_contents: ContinuationContents {
            live_chat_continuation: LiveChatContinuation {
                continuations,
                actions,
            },
        },
    }
}

fn only_message(outgoing: &Outgoing) -> (i32, &ChatMessage) {
    match &outgoing.message {
        MessageToStreamer::Request(request) => {
            let RequestData::ChatMessages(chat) = &request.data;
            assert!(!chat.history);
            assert_eq!(chat.messages.len(), 1);
            (request.id, &chat.messages[0])
        }
        _ => panic!("Expected a request"),
    }
}

#[test]
fn a_description_becomes_a_chat_message() {
    let mut state = StreamerState::new(5);
    let mut desc = description("Ann", "hello world");
    desc.author_badges = Some(vec![
        AuthorBadge {
            live_chat_author_badge_renderer: None,
        },
        AuthorBadge {
            live_chat_author_badge_renderer: Some(AuthorBadgeRenderer {
                icon: Some(BadgeIcon {
                    icon_type: Some("MEMBER".to_string()),
                }),
            }),
        },
    ]);
    assert!(is_youtube_member(&desc));
    let segments = create_youtube_segments(&desc);
    let time = Timestamp::new(1_431_648_000, 0).unwrap();
    let outgoing = append_youtube_message(&mut state, &desc, segments, time).unwrap();
    assert_eq!(outgoing.to, 5);
    let (id, chat) = only_message(&outgoing);
    assert_eq!(id, 1);
    assert_eq!(chat.id, 1);
    assert_eq!(chat.platform, Platform::YouTube {});
    assert!(chat.message_id.is_none());
    assert_eq!(chat.display_name.as_deref(), Some("Ann"));
    assert_eq!(chat.user.as_deref(), Some("Ann"));
    assert!(chat.user_id.is_none());
    assert!(chat.user_color.is_none());
    assert!(chat.user_badges.is_empty());
    assert_eq!(chat.segments.len(), 2);
    assert_eq!(chat.segments[1].id, 1);
    assert_eq!(chat.timestamp, "2015-05-15T00:00:00+00:00");
    assert!(!chat.is_action);
    assert!(!chat.is_moderator);
    assert!(chat.is_subscriber);
    assert!(!chat.is_owner);
    assert!(chat.bits.is_none());
}

#[test]
fn a_chat_message_carries_what_it_is_given() {
    let desc = description("Ann", "hello world");
    let segments = create_youtube_segments(&desc);
    let chat = create_chat_message(&desc, segments, 7, "now".to_string());
    assert_eq!(chat.id, 7);
    assert_eq!(chat.timestamp, "now");
    assert_eq!(chat.user.as_deref(), Some("Ann"));
    assert_eq!(chat.segments.len(), 2);
    assert!(!chat.is_subscriber);
}

#[test]
fn an_emoji_without_thumbnails_shows_nothing() {
    let mut desc = description("Ann", "");
    desc.message = Some(Message {
        runs: vec![Run {
            text: None,
            emoji: Some(Emoji {
                image: Image { thumbnails: vec![] },
            }),
        }],
    });
    assert!(create_youtube_segments(&desc).is_empty());
}

#[test]
fn all_items_of_an_answer_are_taken_in_in_order() {
    let mut state = StreamerState::new(5);
    let mut all = item();
    all.live_chat_membership_item_renderer = Some(description("D", "d"));
    all.live_chat_paid_sticker_renderer = Some(description("C", "c"));
    all.live_chat_paid_message_renderer = Some(description("B", "b"));
    all.live_chat_text_message_renderer = Some(description("A", "a"));
    let answer = live_chat(
        Some(vec![
            text_action("Z", "z"),
            Action {
                add_chat_item_action: None,
            },
            action(all),
            text_action("Empty", "  "),
            text_action("E", "e"),
        ]),
        vec![],
    );
    let (outgoing, count) = append_live_chat(&mut state, &answer);
    assert_eq!(count, 6);
    let names: Vec<String> = outgoing
        .iter()
        .map(|o| only_message(o).1.display_name.clone().unwrap())
        .collect();
    assert_eq!(names, vec!["Z", "A", "B", "C", "D", "E"]);
    let ids: Vec<(i32, i32)> = outgoing
        .iter()
        .map(|o| (only_message(o).0, only_message(o).1.id))
        .collect();
    assert_eq!(ids, vec![(1, 1), (2, 2), (3, 3), (4, 4), (5, 5), (6, 6)]);
}

#[test]
fn new_messages_carry_the_current_time() {
    let mut state = StreamerState::new(5);
    let answer = live_chat(Some(vec![text_action("A", "a")]), vec![]);
    let (outgoing, _) = append_live_chat(&mut state, &answer);
    let timestamp = &only_message(&outgoing[0]).1.timestamp;
    let time = chrono::DateTime::parse_from_rfc3339(timestamp).unwrap();
    let age = chrono::Utc::now().timestamp() - time.timestamp();
    assert!((0..60).contains(&age));
}

#[test]
fn nothing_is_sent_while_the_streamer_is_away() {
    let mut state = StreamerState::new(5);
    state.set_writer(None);
    let answer = live_chat(Some(vec![text_action("A", "a")]), vec![]);
    let (outgoing, count) = append_live_chat(&mut state, &answer);
    assert!(outgoing.is_empty());
    assert_eq!(count, 1);
    state.set_writer(Some(6));
    let history = state.send_chat_history().unwrap();
    assert_eq!(history.to, 6);
    match history.message {
        MessageToStreamer::Request(request) => {
            assert_eq!(request.id, 2);
            let RequestData::ChatMessages(chat) = request.data;
            assert!(chat.history);
            assert_eq!(chat.messages.len(), 1);
            assert_eq!(chat.messages[0].user.as_deref(), Some("A"));
        }
        _ => panic!("Expected a request"),
    }
}

#[test]
fn the_wait_depends_on_the_messages() {
    let mut state = StreamerState::new(5);
    let mut session = YouTubeSession::new("start".to_string());
    assert_eq!(session.request().continuation, "start");
    let mut step = |count: usize, token: &str| {
        let actions = (0..count).map(|_| text_action("A", "a")).collect();
        let answer = live_chat(Some(actions), vec![continuation(Some(token))]);
        let (outgoing, wait) = youtube_chat_session(&mut session, &mut state, &answer);
        assert_eq!(outgoing.len(), count);
        assert_eq!(session.request().continuation, token);
        wait.unwrap()
    };
    assert_eq!(step(0, "a"), 3000);
    assert_eq!(step(1, "b"), 3000);
    assert_eq!(step(10, "c"), 1500);
    assert_eq!(step(7, "d"), 1071);
    assert_eq!(step(100, "e"), 200);
    assert_eq!(step(4, "f"), 250);
    assert_eq!(step(0, "g"), 3000);
}

#[test]
fn the_first_continuation_that_says_so_is_taken() {
    let mut state = StreamerState::new(5);
    let mut session = YouTubeSession::new("start".to_string());
    let answer = live_chat(
        None,
        vec![
            continuation(None),
            continuation(Some("one")),
            continuation(Some("two")),
        ],
    );
    let (_, wait) = youtube_chat_session(&mut session, &mut state, &answer);
    assert_eq!(wait.unwrap(), 3000);
    assert_eq!(session.request().continuation, "one");
}

#[test]
fn an_answer_without_continuation_is_an_error_but_its_messages_count() {
    let mut state = StreamerState::new(5);
    let mut session = YouTubeSession::new("start".to_string());
    let answer = live_chat(
        Some(vec![text_action("A", "a")]),
        vec![continuation(None)],
    );
    let (outgoing, wait) = youtube_chat_session(&mut session, &mut state, &answer);
    assert_eq!(outgoing.len(), 1);
    let error = wait.unwrap_err();
    assert!(matches!(error, YouTubeError::NoContinuation));
    assert_eq!(error.message(), "No continuation token in YouTube response");
    assert_eq!(session.request().continuation, "start");
}

#[test]
fn the_first_token_of_the_page_is_where_the_chat_starts() {
    let page = r#"x"continuation":"" "continuation":"abc" "continuation":"def""#;
    assert_eq!(find_initial_continuation(page).unwrap(), "abc");
    let page = "..\"continuation\":\"t\u{f6}\nken==\",\"other\"";
    assert_eq!(find_initial_continuation(page).unwrap(), "t\u{f6}\nken==");
    let page = r#""continuation":""continuation":"abc""#;
    assert_eq!(find_initial_continuation(page).unwrap(), "abc");
    for page in [
        "",
        r#""continuation":"abc"#,
        r#""continuation": "abc""#,
        r#""continuation":"""#,
        r#"continuation":"abc""#,
    ] {
        let error = find_initial_continuation(page).unwrap_err();
        assert!(matches!(error, YouTubeError::NoInitialContinuation));
        assert_eq!(
            error.message(),
            "No continuation token found in YouTube live chat page"
        );
    }
}

#[test]
fn only_statuses_of_success_are_taken() {
    for code in [200, 204, 299] {
        assert!(check_page_status(code, "").is_ok());
        assert!(check_chat_status(code, "").is_ok());
    }
    for code in [100, 199, 300, 404, 500] {
        assert!(check_page_status(code, "").is_err());
        assert!(check_chat_status(code, "").is_err());
    }
    assert_eq!(
        check_page_status(404, "404 Not Found")
            .unwrap_err()
            .message(),
        "YouTube live chat page returned status 404 Not Found"
    );
    assert_eq!(
        check_chat_status(500, "500 Internal Server Error")
            .unwrap_err()
            .message(),
        "YouTube get_live_chat returned status 500 Internal Server Error"
    );
}

#[test]
fn a_chat_that_failed_is_read_again() {
    assert_eq!(after_youtube_session(true, true), Some(5));
    assert_eq!(after_youtube_session(true, false), None);
    assert_eq!(after_youtube_session(false, true), None);
    assert_eq!(after_youtube_session(false, false), None);
}

#[test]
fn questions_to_youtube() {
    assert_eq!(
        live_chat_page_url("abc123"),
        "https://www.youtube.com/live_chat?is_popout=1&v=abc123"
    );
    let request = live_chat_request("token");
    assert_eq!(request.client_name, "WEB");
    assert_eq!(request.client_version, "2.20210128.02.00");
    assert_eq!(request.continuation, "token");
}
