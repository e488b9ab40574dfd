use moblin_assistant::youtube::{
    create_youtube_segments, is_youtube_member, is_youtube_moderator, is_youtube_owner, Author,
    AuthorBadge, AuthorBadgeRenderer, BadgeIcon, ChatDescription, Emoji, Image, Message, Run,
    Thumbnail,
};

#[test]
fn test_youtube_segments_text_only() {
    let desc = ChatDescription {
        author_name: Author {
            simple_text: "TestUser".to_string(),
        },
        message: Some(Message {
            runs: vec![Run {
                text: Some("hello world".to_string()),
                emoji: None,
            }],
        }),
        purchase_amount_text: None,
        header_subtext: None,
        author_badges: None,
    };
    let segments = create_youtube_segments(&desc);
    assert_eq!(segments.len(), 2);
    assert_eq!(segments[0].text.as_deref(), Some("hello "));
    assert_eq!(segments[1].text.as_deref(), Some("world "));
}

#[test]
fn test_youtube_segments_with_emoji() {
    let desc = ChatDescription {
        author_name: Author {
            simple_text: "TestUser".to_string(),
        },
        message: Some(Message {
            runs: vec![
                Run {
                    text: Some("hi ".to_string()),
                    emoji: None,
                },
                Run {
                    text: None,
                    emoji: Some(Emoji {
                        image: Image {
                            thumbnails: vec![Thumbnail {
                                url: "https://example.com/emoji.png".to_string(),
                            }],
                        },
                    }),
                },
                Run {
                    text: Some(" bye".to_string()),
                    emoji: None,
                },
            ],
        }),
        purchase_amount_text: None,
        header_subtext: None,
        author_badges: None,
    };
    let segments = create_youtube_segments(&desc);
    assert_eq!(segments.len(), 3);
    assert_eq!(segments[0].text.as_deref(), Some("hi "));
    assert!(segments[0].url.is_none());
    assert!(segments[1].text.is_none());
    assert_eq!(
        segments[1].url.as_deref(),
        Some("https://example.com/emoji.png")
    );
    assert_eq!(segments[2].text.as_deref(), Some("bye "));
}

#[test]
fn test_youtube_segments_empty_message() {
    let desc = ChatDescription {
        author_name: Author {
            simple_text: "TestUser".to_string(),
        },
        message: None,
        purchase_amount_text: None,
        header_subtext: None,
        author_badges: None,
    };
    let segments = create_youtube_segments(&desc);
    assert!(segments.is_empty());
}

#[test]
fn test_youtube_owner_detection() {
    let desc = ChatDescription {
        author_name: Author {
            simple_text: "Owner".to_string(),
        },
        message: None,
        purchase_amount_text: None,
        header_subtext: None,
        author_badges: Some(vec![AuthorBadge {
            live_chat_author_badge_renderer: Some(AuthorBadgeRenderer {
                icon: Some(BadgeIcon {
                    icon_type: Some("OWNER".to_string()),
                }),
            }),
        }]),
    };
    assert!(is_youtube_owner(&desc));
    assert!(!is_youtube_moderator(&desc));
    assert!(!is_youtube_member(&desc));
}

#[test]
fn test_youtube_moderator_detection() {
    let desc = ChatDescription {
        author_name: Author {
            simple_text: "Mod".to_string(),
        },
        message: None,
        purchase_amount_text: None,
        header_subtext: None,
        author_badges: Some(vec![AuthorBadge {
            live_chat_author_badge_renderer: Some(AuthorBadgeRenderer {
                icon: Some(BadgeIcon {
                    icon_type: Some("MODERATOR".to_string()),
                }),
            }),
        }]),
    };
    assert!(!is_youtube_owner(&desc));
    assert!(is_youtube_moderator(&desc));
}

#[test]
fn test_youtube_no_badges() {
    let desc = ChatDescription {
        author_name: Author {
            simple_text: "User".to_string(),
        },
        message: None,
        purchase_amount_text: None,
        header_subtext: None,
        author_badges: None,
    };
    assert!(!is_youtube_owner(&desc));
    assert!(!is_youtube_moderator(&desc));
    assert!(!is_youtube_member(&desc));
}

#[test]
fn test_youtube_segments_header_subtext() {
    let desc = ChatDescription {
        author_name: Author {
            simple_text: "TestUser".to_string(),
        },
        message: Some(Message {
            runs: vec![Run {
                text: Some("main message".to_string()),
                emoji: None,
            }],
        }),
        purchase_amount_text: None,
        header_subtext: Some(Message {
            runs: vec![Run {
                text: Some("header".to_string()),
                emoji: None,
            }],
        }),
        author_badges: None,
    };
    let segments = create_youtube_segments(&desc);
    assert_eq!(segments.len(), 3);
    assert_eq!(segments[0].text.as_deref(), Some("header "));
    assert_eq!(segments[1].text.as_deref(), Some("main "));
    assert_eq!(segments[2].text.as_deref(), Some("message "));
}
