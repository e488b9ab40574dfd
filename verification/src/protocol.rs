//! The messages that the assistant and a streamer exchange.

use vstd::prelude::*;

use crate::text::texts;

verus! {

/// The version of the protocol that the assistant speaks.
pub const API_VERSION: &'static str = "0.1";

/// `serde_json::Value` is carried as the payload of messages whose payload the
/// assistant does not read. Nothing is said of what it holds.
#[verifier::external_type_specification]
#[verifier::external_body]
pub struct ExValue(serde_json::Value);

#[derive(Debug)]
pub struct Authentication {
    pub challenge: String,
    pub salt: String,
}

#[derive(Debug)]
pub struct HelloMessage {
    pub api_version: String,
    pub authentication: Authentication,
}

/// The answer to an identify message.
#[derive(Debug, Clone, Copy, PartialEq, Eq, Structural)]
pub enum IdentifiedResult {
    Accepted {},
    WrongPassword {},
    AlreadyIdentified {},
}

#[derive(Debug)]
pub struct IdentifiedMessage {
    pub result: IdentifiedResult,
}

#[derive(Debug, Clone, Copy, PartialEq, Eq, Structural)]
pub enum Platform {
    Soop {},
    Kick {},
    OpenStreamingPlatform {},
    Twitch {},
    YouTube {},
    DLive {},
}

#[derive(Debug, Clone, Copy, PartialEq, Eq, Structural)]
pub struct RgbColor {
    pub red: i32,
    pub green: i32,
    pub blue: i32,
}

/// A part of a chat message: some text, or the address of a picture.
#[derive(Debug)]
pub struct ChatPostSegment {
    pub id: i32,
    pub text: Option<String>,
    pub url: Option<String>,
}

#[derive(Debug)]
pub struct ChatMessage {
    pub id: i32,
    pub platform: Platform,
    pub message_id: Option<String>,
    pub display_name: Option<String>,
    pub user: Option<String>,
    pub user_id: Option<String>,
    pub user_color: Option<RgbColor>,
    pub user_badges: Vec<String>,
    pub segments: Vec<ChatPostSegment>,
    pub timestamp: String,
    pub is_action: bool,
    pub is_moderator: bool,
    pub is_subscriber: bool,
    pub is_owner: bool,
    pub bits: Option<String>,
}

/// Chat messages for the streamer: a new one, or the stored ones.
#[derive(Debug)]
pub struct ChatMessagesRequest {
    pub history: bool,
    pub messages: Vec<ChatMessage>,
}

#[derive(Debug)]
pub enum RequestData {
    ChatMessages(ChatMessagesRequest),
}

#[derive(Debug)]
pub struct RequestMessage {
    pub id: i32,
    pub data: RequestData,
}

/// A streamer's answer to the hello message. A streamer that names itself finds
/// its chat again on its next connection.
#[derive(Debug)]
pub struct IdentifyMessage {
    pub authentication: String,
    pub streamer_id: Option<String>,
}

#[derive(Debug)]
pub struct TwitchStartMessage {
    pub channel_name: Option<String>,
    pub channel_id: String,
    pub access_token: String,
}

#[derive(Debug)]
pub struct YouTubeStartMessage {
    pub video_id: String,
}

/// What a streamer sends.
#[derive(Debug)]
pub enum MessageToAssistant {
    Identify(IdentifyMessage),
    Ping(serde_json::Value),
    Event(serde_json::Value),
    TwitchStart(TwitchStartMessage),
    YouTubeStart(YouTubeStartMessage),
    Response(serde_json::Value),
}

/// What the assistant sends.
#[derive(Debug)]
pub enum MessageToStreamer {
    Hello(HelloMessage),
    Identified(IdentifiedMessage),
    Request(RequestMessage),
    Pong {},
}

/// The text that an optional string holds.
pub open spec fn optional_text(s: Option<String>) -> Option<Seq<char>> {
    match s {
        Some(s) => Some(s@),
        None => None,
    }
}

/// The content of a segment.
#[verifier::ext_equal]
pub struct SegmentView {
    pub id: int,
    pub text: Option<Seq<char>>,
    pub url: Option<Seq<char>>,
}

impl View for ChatPostSegment {
    type V = SegmentView;

    open spec fn view(&self) -> SegmentView {
        SegmentView {
            id: self.id as int,
            text: optional_text(self.text),
            url: optional_text(self.url),
        }
    }
}

/// The contents of segments.
pub open spec fn segment_views(segments: Seq<ChatPostSegment>) -> Seq<SegmentView> {
    segments.map_values(|s: ChatPostSegment| s@)
}

/// The content of a chat message.
#[verifier::ext_equal]
pub struct ChatMessageView {
    pub id: int,
    pub platform: Platform,
    pub message_id: Option<Seq<char>>,
    pub display_name: Option<Seq<char>>,
    pub user: Option<Seq<char>>,
    pub user_id: Option<Seq<char>>,
    pub user_color: Option<RgbColor>,
    pub user_badges: Seq<Seq<char>>,
    pub segments: Seq<SegmentView>,
    pub timestamp: Seq<char>,
    pub is_action: bool,
    pub is_moderator: bool,
    pub is_subscriber: bool,
    pub is_owner: bool,
    pub bits: Option<Seq<char>>,
}

impl View for ChatMessage {
    type V = ChatMessageView;

    open spec fn view(&self) -> ChatMessageView {
        ChatMessageView {
            id: self.id as int,
            platform: self.platform,
            message_id: optional_text(self.message_id),
            display_name: optional_text(self.display_name),
            user: optional_text(self.user),
            user_id: optional_text(self.user_id),
            user_color: self.user_color,
            user_badges: texts(self.user_badges@),
            segments: segment_views(self.segments@),
            timestamp: self.timestamp@,
            is_action: self.is_action,
            is_moderator: self.is_moderator,
            is_subscriber: self.is_subscriber,
            is_owner: self.is_owner,
            bits: optional_text(self.bits),
        }
    }
}

/// The contents of chat messages.
pub open spec fn chat_views(messages: Seq<ChatMessage>) -> Seq<ChatMessageView> {
    messages.map_values(|m: ChatMessage| m@)
}

/// The content of a message to the streamer.
#[verifier::ext_equal]
pub enum MessageToStreamerView {
    Hello { api_version: Seq<char>, challenge: Seq<char>, salt: Seq<char> },
    Identified(IdentifiedResult),
    ChatMessages { id: int, history: bool, messages: Seq<ChatMessageView> },
    Pong,
}

impl View for MessageToStreamer {
    type V = MessageToStreamerView;

    open spec fn view(&self) -> MessageToStreamerView {
        match self {
            MessageToStreamer::Hello(hello) => MessageToStreamerView::Hello {
                api_version: hello.api_version@,
                challenge: hello.authentication.challenge@,
                salt: hello.authentication.salt@,
            },
            MessageToStreamer::Identified(identified) => MessageToStreamerView::Identified(
                identified.result,
            ),
            MessageToStreamer::Request(request) => match request.data {
                RequestData::ChatMessages(chat) => MessageToStreamerView::ChatMessages {
                    id: request.id as int,
                    history: chat.history,
                    messages: chat_views(chat.messages@),
                },
            },
            MessageToStreamer::Pong {  } => MessageToStreamerView::Pong,
        }
    }
}

/// A copy of an optional string.
pub fn clone_text(s: &Option<String>) -> (r: Option<String>)
    ensures
        optional_text(r) == optional_text(*s),
{
    match s {
        Some(s) => Some(s.clone()),
        None => None,
    }
}

impl Clone for ChatPostSegment {
    /// A segment with the same content.
    fn clone(&self) -> (r: Self)
        ensures
            r@ == self@,
    {
        ChatPostSegment { id: self.id, text: clone_text(&self.text), url: clone_text(&self.url) }
    }
}

impl Clone for ChatMessage {
    /// A chat message with the same content.
    fn clone(&self) -> (r: Self)
        ensures
            r@ == self@,
    {
        let user_badges = self.user_badges.clone();
        let segments = self.segments.clone();
        assert(texts(user_badges@) =~= texts(self.user_badges@));
        assert(segment_views(segments@) =~= segment_views(self.segments@));
        ChatMessage {
            id: self.id,
            platform: self.platform,
            message_id: clone_text(&self.message_id),
            display_name: clone_text(&self.display_name),
            user: clone_text(&self.user),
            user_id: clone_text(&self.user_id),
            user_color: self.user_color,
            user_badges,
            segments,
            timestamp: self.timestamp.clone(),
            is_action: self.is_action,
            is_moderator: self.is_moderator,
            is_subscriber: self.is_subscriber,
            is_owner: self.is_owner,
            bits: clone_text(&self.bits),
        }
    }
}

} // verus!
