use moblin_assistant::protocol::{MessageToStreamer, Platform, RequestData, RgbColor};
use moblin_assistant::streamer::StreamerState;
use moblin_assistant::time::Timestamp;
use moblin_assistant::twitch::{
    create_chat_message, create_segments, handle_message, Badge, Emote, PrivmsgMessage, RGBColor,
    ServerMessage, TwitchUserBasics,
};

#[test]
fn test_no_emotes() {
    let segments = create_segments("hello world", &[]);
    assert_eq!(segments.len(), 2);
    assert_eq!(segments[0].text.as_deref(), Some("hello "));
    assert!(segments[0].url.is_none());
    assert_eq!(segments[1].text.as_deref(), Some("world "));
    assert!(segments[1].url.is_none());
}

#[test]
fn test_single_emote_only() {
    let emotes = vec![Emote {
        id: "25".to_string(),
        char_range: 0..5,
        code: "Kappa".to_string(),
    }];
    let segments = create_segments("Kappa", &emotes);
    assert_eq!(segments.len(), 2);
    assert!(segments[0].text.is_none());
    assert_eq!(
        segments[0].url.as_deref(),
        Some("https://static-cdn.jtvnw.net/emoticons/v2/25/default/dark/3.0")
    );
    assert_eq!(segments[1].text.as_deref(), Some(""));
}

#[test]
fn test_text_before_and_after_emote() {
    let emotes = vec![Emote {
        id: "25".to_string(),
        char_range: 6..11,
        code: "Kappa".to_string(),
    }];
    let segments = create_segments("hello Kappa world", &emotes);
    assert_eq!(segments.len(), 4);
    assert_eq!(segments[0].text.as_deref(), Some("hello "));
    assert!(segments[1].url.is_some());
    assert_eq!(segments[2].text.as_deref(), Some(""));
    assert_eq!(segments[3].text.as_deref(), Some("world "));
}

#[test]
fn test_multiple_emotes() {
    let emotes = vec![
        Emote {
            id: "25".to_string(),
            char_range: 0..5,
            code: "Kappa".to_string(),
        },
        Emote {
            id: "1902".to_string(),
            char_range: 6..11,
            code: "Keepo".to_string(),
        },
        Emote {
            id: "25".to_string(),
            char_range: 12..17,
            code: "Kappa".to_string(),
        },
    ];
    let segments = create_segments("Kappa Keepo Kappa", &emotes);
    assert_eq!(
        segments[0].url.as_deref(),
        Some("https://static-cdn.jtvnw.net/emoticons/v2/25/default/dark/3.0")
    );
    assert_eq!(
        segments[2].url.as_deref(),
        Some("https://static-cdn.jtvnw.net/emoticons/v2/1902/default/dark/3.0")
    );
    assert_eq!(
        segments[4].url.as_deref(),
        Some("https://static-cdn.jtvnw.net/emoticons/v2/25/default/dark/3.0")
    );
}

#[test]
fn test_emote_with_unicode() {
    let emotes = vec![Emote {
        id: "483".to_string(),
        char_range: 2..4,
        code: "<3".to_string(),
    }];
    let segments = create_segments("👉 <3 test", &emotes);
    assert_eq!(segments[0].text.as_deref(), Some("👉 "));
    assert!(segments[1].url.is_some());
    assert_eq!(segments[2].text.as_deref(), Some(""));
    assert_eq!(segments[3].text.as_deref(), Some("test "));
}

#[test]
fn test_empty_message() {
    let segments = create_segments("", &[]);
    assert_eq!(segments.len(), 1);
    assert_eq!(segments[0].text.as_deref(), Some(""));
}

#[test]
fn test_emote_with_non_numeric_id() {
    let emotes = vec![Emote {
        id: "300196486_TK".to_string(),
        char_range: 0..8,
        code: "pajaM_TK".to_string(),
    }];
    let segments = create_segments("pajaM_TK", &emotes);
    assert_eq!(segments.len(), 2);
    assert_eq!(
        segments[0].url.as_deref(),
        Some("https://static-cdn.jtvnw.net/emoticons/v2/300196486_TK/default/dark/3.0")
    );
}

#[test]
fn test_mixed_text_and_emotes() {
    let emotes = vec![
        Emote {
            id: "25".to_string(),
            char_range: 0..5,
            code: "Kappa".to_string(),
        },
        Emote {
            id: "1902".to_string(),
            char_range: 6..11,
            code: "Keepo".to_string(),
        },
        Emote {
            id: "25".to_string(),
            char_range: 12..17,
            code: "Kappa".to_string(),
        },
        Emote {
            id: "25".to_string(),
            char_range: 18..23,
            code: "Kappa".to_string(),
        },
    ];
    let segments = create_segments("Kappa Keepo Kappa Kappa test", &emotes);
    let url_count = segments.iter().filter(|s| s.url.is_some()).count();
    assert_eq!(url_count, 4);
    let last = segments.last().unwrap();
    assert_eq!(last.text.as_deref(), Some("test "));
}

fn emote(id: &str, start: usize, end: usize) -> Emote {
    Emote {
        id: id.to_string(),
        char_range: start..end,
        code: String::new(),
    }
}

fn shown(text: &str, emotes: &[Emote]) -> Vec<(i32, Option<String>, Option<String>)> {
    create_segments(text, emotes)
        .into_iter()
        .map(|s| (s.id, s.text, s.url))
        .collect()
}

fn url(id: &str) -> Option<String> {
    Some(format!(
        "https://static-cdn.jtvnw.net/emoticons/v2/{}/default/dark/3.0",
        id
    ))
}

fn text(text: &str) -> Option<String> {
    Some(text.to_string())
}

#[test]
fn segments_are_numbered_from_zero() {
    assert_eq!(
        shown("a b E c", &[emote("1", 4, 5)]),
        vec![
            (0, text("a "), None),
            (1, text("b "), None),
            (2, None, url("1")),
            (3, text(""), None),
            (4, text("c "), None),
        ]
    );
}

#[test]
fn emotes_are_shown_in_the_order_of_their_starts() {
    assert_eq!(
        shown("A B", &[emote("2", 2, 3), emote("1", 0, 1)]),
        vec![
            (0, None, url("1")),
            (1, text(""), None),
            (2, None, url("2")),
            (3, text(""), None),
        ]
    );
}

#[test]
fn emotes_with_the_same_start_keep_their_order() {
    assert_eq!(
        shown("A", &[emote("2", 0, 1), emote("1", 0, 1)]),
        vec![
            (0, None, url("2")),
            (1, text(""), None),
            (2, None, url("1")),
            (3, text(""), None),
        ]
    );
}

#[test]
fn overlapping_emotes_show_the_text_between_again() {
    assert_eq!(
        shown("AB CD EF", &[emote("1", 0, 8), emote("2", 1, 2)]),
        vec![
            (0, None, url("1")),
            (1, text(""), None),
            (2, None, url("2")),
            (3, text(""), None),
            (4, text("CD "), None),
            (5, text("EF "), None),
        ]
    );
}

#[test]
fn emotes_behind_the_end_are_left_out() {
    assert_eq!(
        shown("hi", &[emote("1", 2, 3), emote("2", 100, 90)]),
        vec![(0, text("hi "), None)]
    );
    assert_eq!(
        shown("hi", &[emote("1", 1, 100)]),
        vec![(0, text("h "), None), (1, None, url("1")), (2, text(""), None)]
    );
}

#[test]
fn a_message_of_whitespace_is_shown_as_it_is() {
    assert_eq!(shown(" \t ", &[]), vec![(0, text(" \t "), None)]);
}

#[test]
fn words_end_at_all_white_space_of_unicode() {
    let mut count = 0;
    for code in 0..=0x10FFFFu32 {
        if let Some(c) = char::from_u32(code) {
            let listed = matches!(
                code,
                0x9..=0xD
                    | 0x20
                    | 0x85
                    | 0xA0
                    | 0x1680
                    | 0x2000..=0x200A
                    | 0x2028
                    | 0x2029
                    | 0x202F
                    | 0x205F
                    | 0x3000
            );
            if listed {
                count += 1;
                let segments = create_segments(&format!("a{}b", c), &[]);
                assert_eq!(segments.len(), 2);
                assert_eq!(segments[0].text.as_deref(), Some("a "));
                assert_eq!(segments[1].text.as_deref(), Some("b "));
            }
            assert_eq!(c.is_whitespace(), listed);
        }
    }
    assert_eq!(count, 25);
    let joined = create_segments("a\u{200B}b", &[]);
    assert_eq!(joined.len(), 1);
    assert_eq!(joined[0].text.as_deref(), Some("a\u{200B}b "));
}

fn badge(name: &str, version: &str) -> Badge {
    Badge {
        name: name.to_string(),
        version: version.to_string(),
    }
}

fn privmsg() -> PrivmsgMessage {
    PrivmsgMessage {
        message_text: "hello world".to_string(),
        is_action: true,
        sender: TwitchUserBasics {
            id: "7".to_string(),
            login: "ann".to_string(),
            name: "Ann".to_string(),
        },
        badges: vec![badge("moderator", "1"), badge("subscriber", "12")],
        bits: Some(18_446_744_073_709_551_615),
        name_color: Some(RGBColor {
            r: 255,
            g: 0,
            b: 16,
        }),
        emotes: vec![],
        message_id: "id-1".to_string(),
        server_timestamp: Timestamp::new(1_431_648_000, 5_000_000).unwrap(),
    }
}

#[test]
fn a_channel_message_becomes_a_chat_message() {
    let chat = create_chat_message(&privmsg(), 42, "now".to_string());
    assert_eq!(chat.id, 42);
    assert_eq!(chat.platform, Platform::Twitch {});
    assert_eq!(chat.message_id.as_deref(), Some("id-1"));
    assert_eq!(chat.display_name.as_deref(), Some("Ann"));
    assert_eq!(chat.user.as_deref(), Some("ann"));
    assert_eq!(chat.user_id.as_deref(), Some("7"));
    assert_eq!(
        chat.user_color,
        Some(RgbColor {
            red: 255,
            green: 0,
            blue: 16,
        })
    );
    assert_eq!(chat.user_badges, vec!["moderator/1", "subscriber/12"]);
    assert_eq!(chat.segments.len(), 2);
    assert_eq!(chat.timestamp, "now");
    assert!(chat.is_action);
    assert!(chat.is_moderator);
    assert!(chat.is_subscriber);
    assert!(!chat.is_owner);
    assert_eq!(chat.bits.as_deref(), Some("18446744073709551615"));
}

#[test]
fn a_plain_channel_message_has_no_color_badges_or_bits() {
    let mut message = privmsg();
    message.badges = vec![badge("broadcaster", "1")];
    message.bits = None;
    message.name_color = None;
    message.is_action = false;
    let chat = create_chat_message(&message, 1, String::new());
    assert!(chat.user_color.is_none());
    assert!(chat.bits.is_none());
    assert!(!chat.is_action);
    assert!(!chat.is_moderator);
    assert!(!chat.is_subscriber);
    assert!(chat.is_owner);
    message.bits = Some(100);
    assert_eq!(
        create_chat_message(&message, 1, String::new()).bits.as_deref(),
        Some("100")
    );
    message.bits = Some(0);
    assert_eq!(create_chat_message(&message, 1, String::new()).bits.as_deref(), Some("0"));
}

#[test]
fn channel_messages_are_numbered_and_sent() {
    let mut state = StreamerState::new(9);
    assert!(handle_message(&mut state, &ServerMessage::Other).is_none());
    for expected in 1..4 {
        let outgoing = handle_message(&mut state, &ServerMessage::Privmsg(privmsg())).unwrap();
        assert_eq!(outgoing.to, 9);
        match outgoing.message {
            MessageToStreamer::Request(request) => {
                assert_eq!(request.id, expected);
                let RequestData::ChatMessages(chat) = request.data;
                assert!(!chat.history);
                assert_eq!(chat.messages.len(), 1);
                assert_eq!(chat.messages[0].id, expected);
                assert_eq!(
                    chat.messages[0].timestamp,
                    "2015-05-15T00:00:00.005+00:00"
                );
            }
            _ => panic!("Expected a request"),
        }
    }
}

#[test]
fn times_have_dates_in_their_range_only() {
    assert!(Timestamp::new(-8_334_601_228_800, 0).is_some());
    assert!(Timestamp::new(-8_334_601_228_801, 0).is_none());
    assert!(Timestamp::new(8_210_266_876_799, 999_999_999).is_some());
    assert!(Timestamp::new(8_210_266_876_800, 0).is_none());
    assert!(Timestamp::new(59, 1_999_999_999).is_some());
    assert!(Timestamp::new(58, 1_000_000_000).is_none());
    assert!(Timestamp::new(-1, 1_000_000_000).is_some());
    assert!(Timestamp::new(-2, 1_000_000_000).is_none());
    assert!(Timestamp::new(59, 2_000_000_000).is_none());
    for (seconds, nanos) in [
        (-8_334_601_228_800, 0),
        (-8_334_601_228_801, 0),
        (8_210_266_876_799, 999_999_999),
        (8_210_266_876_800, 0),
        (59, 1_999_999_999),
        (58, 1_000_000_000),
        (-1, 1_000_000_000),
        (-2, 1_000_000_000),
        (59, 2_000_000_000),
    ] {
        assert_eq!(
            Timestamp::new(seconds, nanos).is_some(),
            chrono::DateTime::from_timestamp(seconds, nanos).is_some()
        );
    }
}

#[test]
fn times_are_written_as_rfc_3339_does() {
    let text = |seconds: i64, nanos: u32| Timestamp::new(seconds, nanos).unwrap().to_rfc3339();
    assert_eq!(text(0, 0), "1970-01-01T00:00:00+00:00");
    assert_eq!(text(-1, 1_000), "1969-12-31T23:59:59.000001+00:00");
    assert_eq!(text(59, 1_000_000_001), "1970-01-01T00:00:60.000000001+00:00");
    assert_eq!(text(-8_334_601_228_800, 0), "-262143-01-01T00:00:00+00:00");
    assert_eq!(text(8_210_266_876_799, 0), "+262142-12-31T23:59:59+00:00");
    let now = Timestamp::now();
    assert!(Timestamp::new(now.seconds, now.nanos).is_some());
    assert!(now.seconds > 1_700_000_000);
    assert!(now.nanos < 1_000_000_000);
}
