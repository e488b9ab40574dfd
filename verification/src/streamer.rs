//! What is kept for a streamer, and the connection that a streamer has.

use std::collections::VecDeque;

use vstd::prelude::*;
use vstd::string::StringExecFns;
use vstd::utf8::encode_utf8;

use crate::protocol::{
    chat_views, clone_text, optional_text, segment_views, Authentication, ChatMessage, ChatMessageView,
    ChatMessagesRequest, ChatPostSegment, HelloMessage, IdentifiedMessage, IdentifiedResult,
    MessageToStreamer, MessageToStreamerView, Platform, RequestData, RequestMessage, API_VERSION,
};
use crate::segments::{numbered, text_piece};
use crate::text::texts;
use crate::utils::{
    base64_text, hash_text, is_random_string, random_string, sha256_digest, text_hash,
};

verus! {

/// How many chat messages are kept for a streamer.
pub const HISTORY_LENGTH: usize = 100;

/// The messages that are kept of `messages`: the newest ones.
pub open spec fn newest(messages: Seq<ChatMessageView>) -> Seq<ChatMessageView> {
    if messages.len() > HISTORY_LENGTH {
        messages.skip(messages.len() - HISTORY_LENGTH)
    } else {
        messages
    }
}

/// The first message to a streamer that nothing is kept for.
pub const WELCOME_TEXT: &'static str = "Welcome to the assistant! ";

/// The second message to a streamer that nothing is kept for.
pub const INTRODUCTION_TEXT: &'static str = "Chat messages show up here. ";

/// Who writes the hardcoded messages.
pub const ASSISTANT_NAME: &'static str = "Moblin assistant";

/// When the hardcoded messages were written.
pub const HARDCODED_TIMESTAMP: &'static str = "1970-01-01T00:00:00+00:00";

/// A message of the assistant itself with the number `id`.
pub open spec fn hardcoded_message(id: int, text: Seq<char>) -> ChatMessageView {
    ChatMessageView {
        id,
        platform: Platform::Twitch {  },
        message_id: None,
        display_name: Some(ASSISTANT_NAME@),
        user: Some(ASSISTANT_NAME@),
        user_id: None,
        user_color: None,
        user_badges: seq![],
        segments: numbered(seq![text_piece(text)]),
        timestamp: HARDCODED_TIMESTAMP@,
        is_action: false,
        is_moderator: false,
        is_subscriber: false,
        is_owner: false,
        bits: None,
    }
}

/// What a streamer that nothing is kept for is sent. The numbers lie below those of all
/// messages that come in.
pub open spec fn hardcoded() -> Seq<ChatMessageView> {
    seq![hardcoded_message(-1, WELCOME_TEXT@), hardcoded_message(0, INTRODUCTION_TEXT@)]
}

/// A message of the assistant itself with the number `id`.
fn create_hardcoded_message(id: i32, text: &str) -> (r: ChatMessage)
    ensures
        r@ == hardcoded_message(id as int, text@),
{
    let mut segments: Vec<ChatPostSegment> = Vec::new();
    segments.push(ChatPostSegment { id: 0, text: Some(text.to_string()), url: None });
    let user_badges: Vec<String> = Vec::new();
    assert(texts(user_badges@) =~= seq![]);
    assert(segment_views(segments@) =~= numbered(seq![text_piece(text@)]));
    ChatMessage {
        id,
        platform: Platform::Twitch {  },
        message_id: None,
        display_name: Some(ASSISTANT_NAME.to_string()),
        user: Some(ASSISTANT_NAME.to_string()),
        user_id: None,
        user_color: None,
        user_badges,
        segments,
        timestamp: HARDCODED_TIMESTAMP.to_string(),
        is_action: false,
        is_moderator: false,
        is_subscriber: false,
        is_owner: false,
        bits: None,
    }
}

/// What a streamer that nothing is kept for is sent.
pub fn hardcoded_messages() -> (r: Vec<ChatMessage>)
    ensures
        chat_views(r@) == hardcoded(),
{
    let mut messages: Vec<ChatMessage> = Vec::new();
    messages.push(create_hardcoded_message(-1, WELCOME_TEXT));
    messages.push(create_hardcoded_message(0, INTRODUCTION_TEXT));
    assert(chat_views(messages@) =~= hardcoded());
    messages
}

/// A message on its way to the connection `to`.
#[derive(Debug)]
pub struct Outgoing {
    pub to: u64,
    pub message: MessageToStreamer,
}

/// The content of a message on its way.
#[verifier::ext_equal]
pub struct OutgoingView {
    pub to: u64,
    pub message: MessageToStreamerView,
}

impl View for Outgoing {
    type V = OutgoingView;

    open spec fn view(&self) -> OutgoingView {
        OutgoingView { to: self.to, message: self.message@ }
    }
}

/// The content of a message that may be on its way.
pub open spec fn outgoing_view(outgoing: Option<Outgoing>) -> Option<OutgoingView> {
    match outgoing {
        Some(outgoing) => Some(outgoing@),
        None => None,
    }
}

/// What is kept for a streamer, whether it is connected or not: the connection to
/// write to, the newest chat messages, and which chats are read.
pub struct StreamerState {
    writer: Option<u64>,
    request_id: i32,
    chat_message_id: i32,
    chat_messages: VecDeque<ChatMessage>,
    twitch_chat: bool,
    youtube_chat: bool,
}

/// The content of a streamer's state.
#[verifier::ext_equal]
pub struct StateView {
    pub writer: Option<u64>,
    pub request_id: int,
    pub chat_message_id: int,
    pub chat_messages: Seq<ChatMessageView>,
    pub twitch_chat: bool,
    pub youtube_chat: bool,
}

impl StateView {
    /// The state of a streamer that has just connected.
    pub open spec fn initial(writer: u64) -> StateView {
        StateView {
            writer: Some(writer),
            request_id: 0,
            chat_message_id: 0,
            chat_messages: seq![],
            twitch_chat: false,
            youtube_chat: false,
        }
    }

    /// No more messages are kept than the history holds, and the last numbers given
    /// out are none below zero.
    pub open spec fn wf(self) -> bool {
        &&& self.chat_messages.len() <= HISTORY_LENGTH
        &&& 0 <= self.request_id <= i32::MAX
        &&& 0 <= self.chat_message_id <= i32::MAX
    }

    /// The state once a chat message number has been given out.
    pub open spec fn next_chat_message(self) -> StateView {
        StateView { chat_message_id: self.chat_message_id + 1, ..self }
    }

    /// The state once a request number has been given out.
    pub open spec fn next_request(self) -> StateView {
        StateView { request_id: self.request_id + 1, ..self }
    }

    /// The state once `message` is stored.
    pub open spec fn store(self, message: ChatMessageView) -> StateView {
        StateView { chat_messages: newest(self.chat_messages.push(message)), ..self }
    }

    /// The state once `message` is stored and sent.
    pub open spec fn append(self, message: ChatMessageView) -> StateView {
        self.store(message).next_request()
    }

    /// The request for `messages`, numbered behind the last request, if there is a
    /// connection to send it to.
    pub open spec fn request(self, history: bool, messages: Seq<ChatMessageView>) -> Option<
        OutgoingView,
    > {
        match self.writer {
            Some(to) => Some(
                OutgoingView {
                    to,
                    message: MessageToStreamerView::ChatMessages {
                        id: self.request_id + 1,
                        history,
                        messages,
                    },
                },
            ),
            None => None,
        }
    }
}

impl View for StreamerState {
    type V = StateView;

    closed spec fn view(&self) -> StateView {
        StateView {
            writer: self.writer,
            request_id: self.request_id as int,
            chat_message_id: self.chat_message_id as int,
            chat_messages: chat_views(self.chat_messages@),
            twitch_chat: self.twitch_chat,
            youtube_chat: self.youtube_chat,
        }
    }
}

impl StreamerState {
    /// The state of a streamer that has just connected.
    pub fn new(writer: u64) -> (r: StreamerState)
        ensures
            r@ == StateView::initial(writer),
            r@.wf(),
    {
        let r = StreamerState {
            writer: Some(writer),
            request_id: 0,
            chat_message_id: 0,
            chat_messages: VecDeque::new(),
            twitch_chat: false,
            youtube_chat: false,
        };
        assert(r@.chat_messages =~= seq![]);
        r
    }

    /// Notes that the Twitch chat is no longer read.
    pub fn destroy_twitch_chat(&mut self)
        ensures
            final(self)@ == (StateView { twitch_chat: false, ..old(self)@ }),
    {
        self.twitch_chat = false;
    }

    /// Notes that the YouTube chat is no longer read.
    pub fn destroy_youtube_chat(&mut self)
        ensures
            final(self)@ == (StateView { youtube_chat: false, ..old(self)@ }),
    {
        self.youtube_chat = false;
    }

    /// Notes that the Twitch chat is read, unless it is already.
    pub fn start_twitch_chat(&mut self) -> (r: bool)
        ensures
            r == !old(self)@.twitch_chat,
            final(self)@ == (StateView { twitch_chat: true, ..old(self)@ }),
    {
        let start = !self.twitch_chat;
        self.twitch_chat = true;
        start
    }

    /// Notes that the YouTube chat is read, unless it is already.
    pub fn start_youtube_chat(&mut self) -> (r: bool)
        ensures
            r == !old(self)@.youtube_chat,
            final(self)@ == (StateView { youtube_chat: true, ..old(self)@ }),
    {
        let start = !self.youtube_chat;
        self.youtube_chat = true;
        start
    }

    /// Changes the connection to write to.
    pub fn set_writer(&mut self, writer: Option<u64>)
        ensures
            final(self)@ == (StateView { writer, ..old(self)@ }),
    {
        self.writer = writer;
    }

    /// Whether `count` more request numbers can be given out.
    pub fn has_request_ids(&self, count: usize) -> (r: bool)
        requires
            self@.wf(),
        ensures
            r == (self@.request_id + count <= i32::MAX),
    {
        count <= (i32::MAX - self.request_id) as usize
    }

    /// Whether `count` more chat message numbers can be given out.
    pub fn has_chat_message_ids(&self, count: usize) -> (r: bool)
        requires
            self@.wf(),
        ensures
            r == (self@.chat_message_id + count <= i32::MAX),
    {
        count <= (i32::MAX - self.chat_message_id) as usize
    }

    /// The number of the next chat message.
    pub fn next_chat_message_id(&mut self) -> (r: i32)
        requires
            old(self)@.chat_message_id < i32::MAX,
        ensures
            r == old(self)@.chat_message_id + 1,
            final(self)@ == old(self)@.next_chat_message(),
    {
        self.chat_message_id += 1;
        self.chat_message_id
    }

    /// Stores a chat message and gives the request that sends it.
    pub fn append_chat_message(&mut self, message: ChatMessage) -> (r: Option<Outgoing>)
        requires
            old(self)@.wf(),
            old(self)@.request_id < i32::MAX,
        ensures
            final(self)@ == old(self)@.append(message@),
            final(self)@.wf(),
            outgoing_view(r) == old(self)@.request(false, seq![message@]),
    {
        self.store_chat_message(message.clone());
        let id: i32 = self.next_request_id();
        let mut messages: Vec<ChatMessage> = Vec::new();
        messages.push(message);
        assert(chat_views(messages@) =~= seq![message@]);
        self.send(
            MessageToStreamer::Request(
                RequestMessage {
                    id,
                    data: RequestData::ChatMessages(
                        ChatMessagesRequest { history: false, messages },
                    ),
                },
            ),
        )
    }

    fn next_request_id(&mut self) -> (r: i32)
        requires
            old(self)@.request_id < i32::MAX,
        ensures
            r == old(self)@.request_id + 1,
            final(self)@ == old(self)@.next_request(),
    {
        self.request_id += 1;
        self.request_id
    }

    /// Stores a chat message, in place of the oldest one if the history is full.
    pub fn store_chat_message(&mut self, message: ChatMessage)
        requires
            old(self)@.wf(),
        ensures
            final(self)@ == old(self)@.store(message@),
            final(self)@.wf(),
    {
        if self.chat_messages.len() >= HISTORY_LENGTH {
            let _ = self.chat_messages.pop_front();
        }
        self.chat_messages.push_back(message);
        assert(self@.chat_messages =~= newest(old(self)@.chat_messages.push(message@)));
    }

    /// The request that sends the stored chat messages.
    pub fn send_chat_history(&mut self) -> (r: Option<Outgoing>)
        requires
            old(self)@.wf(),
            old(self)@.request_id < i32::MAX,
        ensures
            final(self)@ == old(self)@.next_request(),
            final(self)@.wf(),
            outgoing_view(r) == old(self)@.request(true, old(self)@.chat_messages),
    {
        let id: i32 = self.next_request_id();
        let mut messages: Vec<ChatMessage> = Vec::new();
        let mut i: usize = 0;
        while i < self.chat_messages.len()
            invariant
                i <= self.chat_messages@.len(),
                chat_views(messages@) == chat_views(self.chat_messages@).take(i as int),
            decreases self.chat_messages@.len() - i,
        {
            let stored: &ChatMessage = &self.chat_messages[i];
            assert(stored@ == self.chat_messages@[i as int]@);
            let message = stored.clone();
            let ghost before = messages@;
            messages.push(message);
            i += 1;
            assert(chat_views(messages@) =~= chat_views(before).push(message@));
            assert(chat_views(messages@) =~= chat_views(self.chat_messages@).take(i as int));
        }
        assert(chat_views(messages@) =~= chat_views(self.chat_messages@));
        self.send(
            MessageToStreamer::Request(
                RequestMessage {
                    id,
                    data: RequestData::ChatMessages(
                        ChatMessagesRequest { history: true, messages },
                    ),
                },
            ),
        )
    }

    /// The request that sends the hardcoded messages.
    pub fn send_hardcoded_messages(&mut self) -> (r: Option<Outgoing>)
        requires
            old(self)@.wf(),
            old(self)@.request_id < i32::MAX,
        ensures
            final(self)@ == old(self)@.next_request(),
            final(self)@.wf(),
            outgoing_view(r) == old(self)@.request(true, hardcoded()),
    {
        let id: i32 = self.next_request_id();
        let messages = hardcoded_messages();
        self.send(
            MessageToStreamer::Request(
                RequestMessage {
                    id,
                    data: RequestData::ChatMessages(
                        ChatMessagesRequest { history: true, messages },
                    ),
                },
            ),
        )
    }

    /// Whether a chat message is stored.
    pub fn has_chat_messages(&self) -> (r: bool)
        ensures
            r == (self@.chat_messages.len() > 0),
    {
        self.chat_messages.len() > 0
    }

    fn send(&self, message: MessageToStreamer) -> (r: Option<Outgoing>)
        ensures
            outgoing_view(r) == match self@.writer {
                Some(to) => Some(OutgoingView { to, message: message@ }),
                None => None,
            },
    {
        match self.writer {
            Some(to) => Some(Outgoing { to, message }),
            None => None,
        }
    }
}

/// The state of a streamer that has just connected, once `messages` have been
/// stored one after the other.
pub open spec fn store_all(writer: u64, messages: Seq<ChatMessageView>) -> StateView
    decreases messages.len(),
{
    if messages.len() == 0 {
        StateView::initial(writer)
    } else {
        store_all(writer, messages.drop_last()).store(messages.last())
    }
}

/// However many chat messages have been stored, the newest hundred are there, the oldest
/// first, and nothing else has changed.
pub proof fn law_the_newest_messages_are_stored(writer: u64, messages: Seq<ChatMessageView>)
    ensures
        store_all(writer, messages) == (StateView {
            chat_messages: newest(messages),
            ..StateView::initial(writer)
        }),
        newest(messages).len() == if messages.len() < 100 {
            messages.len()
        } else {
            100
        },
        messages.len() > 0 ==> newest(messages).last() == messages.last(),
    decreases messages.len(),
{
    if messages.len() > 0 {
        law_the_newest_messages_are_stored(writer, messages.drop_last());
        assert(newest(newest(messages.drop_last()).push(messages.last())) =~= newest(messages));
    } else {
        assert(newest(messages) =~= seq![]);
    }
}

/// The state of a streamer that has just connected, once `messages` have been
/// stored and sent one after the other.
pub open spec fn append_all(writer: u64, messages: Seq<ChatMessageView>) -> StateView
    decreases messages.len(),
{
    if messages.len() == 0 {
        StateView::initial(writer)
    } else {
        append_all(writer, messages.drop_last()).append(messages.last())
    }
}

/// However many chat messages have come in, the newest hundred are the history, in
/// the order they came in, and each has had a request number of its own.
pub proof fn law_history_is_the_newest_messages(writer: u64, messages: Seq<ChatMessageView>)
    ensures
        append_all(writer, messages).chat_messages == newest(messages),
        append_all(writer, messages).request_id == messages.len(),
    decreases messages.len(),
{
    if messages.len() > 0 {
        law_history_is_the_newest_messages(writer, messages.drop_last());
        assert(newest(newest(messages.drop_last()).push(messages.last())) =~= newest(messages));
    } else {
        assert(newest(messages) =~= seq![]);
    }
}

/// What the client has to answer to prove that it knows the password: the hash of
/// the password and the salt, hashed again with the challenge.
pub open spec fn expected_authentication(
    password: Seq<char>,
    salt: Seq<char>,
    challenge: Seq<char>,
) -> Seq<char> {
    text_hash(text_hash(password + salt) + challenge)
}

/// A connection of a streamer, named by the number `writer`, with the streamer's
/// state, named by the number `state`, until another connection takes it over.
pub struct StreamerConnection {
    password: String,
    peer_address: String,
    writer: u64,
    challenge: String,
    salt: String,
    identified: bool,
    streamer_id: Option<String>,
    state: Option<u64>,
}

/// The content of a connection.
#[verifier::ext_equal]
pub struct ConnectionView {
    pub password: Seq<char>,
    pub peer_address: Seq<char>,
    pub writer: u64,
    pub challenge: Seq<char>,
    pub salt: Seq<char>,
    pub identified: bool,
    pub streamer_id: Option<Seq<char>>,
    pub state: Option<u64>,
}

impl ConnectionView {
    /// A connection that has just been made.
    pub open spec fn initial(
        password: Seq<char>,
        peer_address: Seq<char>,
        writer: u64,
        state: u64,
        challenge: Seq<char>,
        salt: Seq<char>,
    ) -> ConnectionView {
        ConnectionView {
            password,
            peer_address,
            writer,
            challenge,
            salt,
            identified: false,
            streamer_id: None,
            state: Some(state),
        }
    }

    /// What the client has to answer to be identified.
    pub open spec fn authentication(self) -> Seq<char> {
        expected_authentication(self.password, self.salt, self.challenge)
    }

    /// The message that starts the conversation.
    pub open spec fn hello(self) -> OutgoingView {
        OutgoingView {
            to: self.writer,
            message: MessageToStreamerView::Hello {
                api_version: API_VERSION@,
                challenge: self.challenge,
                salt: self.salt,
            },
        }
    }

    /// The answer to an identify message.
    pub open spec fn identified_answer(self, result: IdentifiedResult) -> OutgoingView {
        OutgoingView { to: self.writer, message: MessageToStreamerView::Identified(result) }
    }

    /// What an identify message with this authentication is answered, if the client has
    /// to answer `expected` to be identified.
    pub open spec fn identify_result(
        self,
        authentication: Seq<char>,
        expected: Seq<char>,
    ) -> IdentifiedResult {
        if self.identified {
            IdentifiedResult::AlreadyIdentified {  }
        } else if authentication == expected {
            IdentifiedResult::Accepted {  }
        } else {
            IdentifiedResult::WrongPassword {  }
        }
    }

    /// The answer to a ping.
    pub open spec fn pong(self) -> OutgoingView {
        OutgoingView { to: self.writer, message: MessageToStreamerView::Pong }
    }
}

impl View for StreamerConnection {
    type V = ConnectionView;

    closed spec fn view(&self) -> ConnectionView {
        ConnectionView {
            password: self.password@,
            peer_address: self.peer_address@,
            writer: self.writer,
            challenge: self.challenge@,
            salt: self.salt@,
            identified: self.identified,
            streamer_id: optional_text(self.streamer_id),
            state: self.state,
        }
    }
}

impl StreamerConnection {
    /// A connection that has just been made, with a fresh challenge and salt.
    pub fn new(password: String, peer_address: String, writer: u64, state: u64) -> (r: Self)
        ensures
            r@ == ConnectionView::initial(
                password@,
                peer_address@,
                writer,
                state,
                r@.challenge,
                r@.salt,
            ),
            is_random_string(r@.challenge),
            is_random_string(r@.salt),
    {
        let challenge = random_string();
        let salt = random_string();
        Self::with_secrets(password, peer_address, writer, state, challenge, salt)
    }

    /// A connection that has just been made, with the given challenge and salt.
    pub fn with_secrets(
        password: String,
        peer_address: String,
        writer: u64,
        state: u64,
        challenge: String,
        salt: String,
    ) -> (r: Self)
        ensures
            r@ == ConnectionView::initial(
                password@,
                peer_address@,
                writer,
                state,
                challenge@,
                salt@,
            ),
    {
        StreamerConnection {
            password,
            peer_address,
            writer,
            challenge,
            salt,
            identified: false,
            streamer_id: None,
            state: Some(state),
        }
    }

    /// What the client has to answer to be identified.
    pub fn hash_password(&self) -> (r: String)
        ensures
            r@ == self@.authentication(),
            r@ == base64_text(
                sha256_digest(
                    encode_utf8(
                        base64_text(sha256_digest(encode_utf8(self@.password + self@.salt)))
                            + self@.challenge,
                    ),
                ),
            ),
            r@.len() == 44,
    {
        let mut concatenated = self.password.clone();
        concatenated.append(self.salt.as_str());
        let mut hash1 = hash_text(concatenated.as_str());
        hash1.append(self.challenge.as_str());
        hash_text(hash1.as_str())
    }

    /// What an identify message with this authentication is answered, if the client has
    /// to answer `expected` to be identified.
    pub fn identify_result(&self, authentication: &String, expected: &String) -> (r:
        IdentifiedResult)
        ensures
            r == self@.identify_result(authentication@, expected@),
    {
        if self.identified {
            IdentifiedResult::AlreadyIdentified {  }
        } else if *authentication == *expected {
            IdentifiedResult::Accepted {  }
        } else {
            IdentifiedResult::WrongPassword {  }
        }
    }

    /// The message that starts the conversation.
    pub fn send_hello(&self) -> (r: Outgoing)
        ensures
            r@ == self@.hello(),
    {
        self.send(
            MessageToStreamer::Hello(
                HelloMessage {
                    api_version: API_VERSION.to_string(),
                    authentication: Authentication {
                        challenge: self.challenge.clone(),
                        salt: self.salt.clone(),
                    },
                },
            ),
        )
    }

    fn send(&self, message: MessageToStreamer) -> (r: Outgoing)
        ensures
            r@ == (OutgoingView { to: self@.writer, message: message@ }),
    {
        Outgoing { to: self.writer, message }
    }

    /// The answer to an identify message.
    pub fn send_identified(&self, result: IdentifiedResult) -> (r: Outgoing)
        ensures
            r@ == self@.identified_answer(result),
    {
        self.send(MessageToStreamer::Identified(IdentifiedMessage { result }))
    }

    /// The answer to a ping.
    pub fn handle_ping(&self) -> (r: Outgoing)
        ensures
            r@ == self@.pong(),
    {
        self.send(MessageToStreamer::Pong {  })
    }

    /// Whether the client has proved that it knows the password.
    pub fn is_identified(&self) -> (r: bool)
        ensures
            r == self@.identified,
    {
        self.identified
    }

    /// Notes that the client has proved that it knows the password, and how it names itself.
    pub fn set_identified(&mut self, streamer_id: Option<String>)
        ensures
            final(self)@ == (ConnectionView {
                identified: true,
                streamer_id: optional_text(streamer_id),
                ..old(self)@
            }),
    {
        self.identified = true;
        self.streamer_id = streamer_id;
    }

    /// How the client names itself.
    pub fn streamer_id(&self) -> (r: Option<String>)
        ensures
            optional_text(r) == self@.streamer_id,
    {
        clone_text(&self.streamer_id)
    }

    /// The state that the connection has.
    pub fn state(&self) -> (r: Option<u64>)
        ensures
            r == self@.state,
    {
        self.state
    }

    /// Changes the state that the connection has.
    pub fn set_state(&mut self, state: Option<u64>)
        ensures
            final(self)@ == (ConnectionView { state, ..old(self)@ }),
    {
        self.state = state;
    }
}

} // verus!
