//! What holds of a streamer's state, of a connection, and of the messages that are sent.

use vstd::prelude::*;
use vstd::utf8::encode_utf8;

use crate::model::{action_views, Action, ActionView};
use crate::protocol::{
    chat_views, optional_text, segment_views, ChatMessage, ChatMessageView, IdentifiedResult,
    MessageToStreamer, MessageToStreamerView, RequestData,
};
use crate::streamer::{
    expected_authentication, hardcoded, newest, outgoing_view, ConnectionView, Outgoing,
    OutgoingView, StateView,
};
use crate::text::texts;
use crate::time::{rfc3339_text, Timestamp};
use crate::utils::{base64_text, sha256_digest, text_hash};
use crate::youtube::outgoing_views;

verus! {

/// What is kept of messages is their end: all of them up to a hundred, and else the last
/// hundred.
pub proof fn law_the_end_is_kept(messages: Seq<ChatMessageView>)
    ensures
        newest(messages) == if messages.len() <= 100 {
            messages
        } else {
            messages.subrange(messages.len() - 100, messages.len() as int)
        },
{
    assert(newest(messages) =~= if messages.len() <= 100 {
        messages
    } else {
        messages.subrange(messages.len() - 100, messages.len() as int)
    });
}

/// A message that is stored joins the history at its end. While there is room, the history
/// before it stays; once it is full, it loses its oldest message. Sending the message takes
/// a request number; nothing else changes.
pub proof fn law_a_message_joins_the_history(state: StateView, message: ChatMessageView)
    requires
        state.chat_messages.len() <= 100,
    ensures
        state.store(message) == (StateView {
            chat_messages: if state.chat_messages.len() < 100 {
                state.chat_messages.push(message)
            } else {
                state.chat_messages.drop_first().push(message)
            },
            ..state
        }),
        state.append(message) == (StateView {
            chat_messages: state.store(message).chat_messages,
            request_id: state.request_id + 1,
            ..state
        }),
{
    assert(state.store(message).chat_messages =~= if state.chat_messages.len() < 100 {
        state.chat_messages.push(message)
    } else {
        state.chat_messages.drop_first().push(message)
    });
}

/// Numbers are given out one by one, each kind on its own.
pub proof fn law_numbers_are_given_out_one_by_one(state: StateView)
    ensures
        state.next_request() == (StateView { request_id: state.request_id + 1, ..state }),
        state.next_chat_message() == (StateView {
            chat_message_id: state.chat_message_id + 1,
            ..state
        }),
{
}

/// A request goes to the connection that the state is written to, holds the messages that it
/// is given and the next request number, and is not sent if there is no such connection.
pub proof fn law_requests_go_to_the_connection(
    state: StateView,
    history: bool,
    messages: Seq<ChatMessageView>,
)
    ensures
        match state.writer {
            Some(c) => state.request(history, messages) == Some(
                OutgoingView {
                    to: c,
                    message: MessageToStreamerView::ChatMessages {
                        id: state.request_id + 1,
                        history,
                        messages,
                    },
                },
            ),
            None => state.request(history, messages) is None,
        },
{
}

/// A streamer that has just connected has no messages, no numbers given out and no chats.
pub proof fn law_a_new_state_is_empty(c: u64)
    ensures
        ({
            let state = StateView::initial(c);
            &&& state.writer == Some(c)
            &&& state.request_id == 0
            &&& state.chat_message_id == 0
            &&& state.chat_messages.len() == 0
            &&& !state.twitch_chat
            &&& !state.youtube_chat
            &&& state.wf()
        }),
{
}

/// A connection that has just been made is not identified and has no name, and keeps what it
/// is given in its place.
pub proof fn law_a_new_connection_is_not_identified(
    password: Seq<char>,
    peer_address: Seq<char>,
    c: u64,
    s: u64,
    challenge: Seq<char>,
    salt: Seq<char>,
)
    ensures
        ({
            let connection = ConnectionView::initial(
                password,
                peer_address,
                c,
                s,
                challenge,
                salt,
            );
            &&& connection.password == password
            &&& connection.peer_address == peer_address
            &&& connection.writer == c
            &&& connection.state == Some(s)
            &&& connection.challenge == challenge
            &&& connection.salt == salt
            &&& !connection.identified
            &&& connection.streamer_id is None
        }),
{
}

/// The hash of a text is the base64 text of the SHA-256 digest of its UTF-8 bytes.
pub proof fn law_a_hash_is_a_digest_in_base64(text: Seq<char>)
    ensures
        text_hash(text) == base64_text(sha256_digest(encode_utf8(text))),
{
}

/// Whatever the password, the salt and the challenge are, and however long, the client has to
/// answer with the base64 text of the digest of the base64 text of the digest of the
/// password and the salt, and the challenge.
pub proof fn law_the_answer_is_hashed_twice(
    password: Seq<char>,
    salt: Seq<char>,
    challenge: Seq<char>,
    connection: ConnectionView,
)
    ensures
        expected_authentication(password, salt, challenge) == base64_text(
            sha256_digest(
                encode_utf8(
                    base64_text(sha256_digest(encode_utf8(password + salt))) + challenge,
                ),
            ),
        ),
        connection.authentication() == base64_text(
            sha256_digest(
                encode_utf8(
                    base64_text(
                        sha256_digest(encode_utf8(connection.password + connection.salt)),
                    ) + connection.challenge,
                ),
            ),
        ),
{
}

/// A client that is identified is told so whatever it sends; any other is accepted exactly if
/// it sends what is expected, and is else told that the password is wrong.
pub proof fn law_identify_has_one_of_three_answers(
    connection: ConnectionView,
    authentication: Seq<char>,
    expected: Seq<char>,
)
    ensures
        ({
            let result = connection.identify_result(authentication, expected);
            &&& result is AlreadyIdentified <==> connection.identified
            &&& result is Accepted <==> !connection.identified && authentication == expected
            &&& result is WrongPassword <==> !connection.identified && authentication != expected
        }),
{
}

/// What a connection says goes to itself: hello with the version of the protocol and its own
/// challenge and salt, the answer to identify with the result, and a pong.
pub proof fn law_a_connection_speaks_for_itself(
    connection: ConnectionView,
    result: IdentifiedResult,
)
    ensures
        connection.hello() == (OutgoingView {
            to: connection.writer,
            message: MessageToStreamerView::Hello {
                api_version: "0.1"@,
                challenge: connection.challenge,
                salt: connection.salt,
            },
        }),
        connection.identified_answer(result) == (OutgoingView {
            to: connection.writer,
            message: MessageToStreamerView::Identified(result),
        }),
        connection.pong() == (OutgoingView {
            to: connection.writer,
            message: MessageToStreamerView::Pong,
        }),
{
}

/// A streamer that nothing is kept for is sent at least one message, and every such message
/// is of the assistant, has text, and a number that no message that comes in has.
pub proof fn law_hardcoded_messages_are_the_assistants()
    ensures
        hardcoded().len() > 0,
        forall|i: int|
            0 <= i < hardcoded().len() ==> {
                let message = #[trigger] hardcoded()[i];
                &&& message.display_name == Some("Moblin assistant"@)
                &&& message.id <= 0
                &&& message.segments.len() == 1
                &&& message.segments[0].text is Some
                &&& message.segments[0].url is None
            },
{
}

/// The text of a time is what RFC 3339 writes for its seconds and nanoseconds.
pub proof fn law_times_are_written_as_they_are(time: Timestamp)
    ensures
        time.text() == rfc3339_text(time.seconds as int, time.nanos as int),
{
}

/// The content of an optional string is the text of the string that is there.
pub proof fn law_optional_texts(s: Option<String>)
    ensures
        optional_text(s) is Some <==> s is Some,
        s matches Some(text) ==> optional_text(s) == Some(text@),
{
}

/// The content of a chat message leaves nothing out and changes nothing.
pub proof fn law_chat_messages_are_what_they_hold(message: ChatMessage)
    ensures
        message@.id == message.id,
        message@.platform == message.platform,
        message@.message_id == optional_text(message.message_id),
        message@.display_name == optional_text(message.display_name),
        message@.user == optional_text(message.user),
        message@.user_id == optional_text(message.user_id),
        message@.user_color == message.user_color,
        message@.user_badges == texts(message.user_badges@),
        message@.segments == segment_views(message.segments@),
        message@.timestamp == message.timestamp@,
        message@.is_action == message.is_action,
        message@.is_moderator == message.is_moderator,
        message@.is_subscriber == message.is_subscriber,
        message@.is_owner == message.is_owner,
        message@.bits == optional_text(message.bits),
{
}

/// The contents of chat messages, of messages on their way and of actions are as many as
/// these, in the same order.
pub proof fn law_contents_keep_the_order(
    messages: Seq<ChatMessage>,
    outgoing: Seq<Outgoing>,
    actions: Seq<Action>,
)
    ensures
        chat_views(messages).len() == messages.len(),
        forall|i: int| 0 <= i < messages.len() ==> #[trigger] chat_views(messages)[i] == messages[i]@,
        outgoing_views(outgoing).len() == outgoing.len(),
        forall|i: int|
            0 <= i < outgoing.len() ==> #[trigger] outgoing_views(outgoing)[i] == outgoing[i]@,
        action_views(actions).len() == actions.len(),
        forall|i: int| 0 <= i < actions.len() ==> #[trigger] action_views(actions)[i] == actions[i]@,
{
}

/// The content of a message to a streamer leaves nothing out and changes nothing.
pub proof fn law_messages_to_streamers_are_what_they_hold(
    message: MessageToStreamer,
    outgoing: Outgoing,
)
    ensures
        match message {
            MessageToStreamer::Hello(hello) => message@ == (MessageToStreamerView::Hello {
                api_version: hello.api_version@,
                challenge: hello.authentication.challenge@,
                salt: hello.authentication.salt@,
            }),
            MessageToStreamer::Identified(identified) => message@
                == MessageToStreamerView::Identified(identified.result),
            MessageToStreamer::Request(request) => match request.data {
                RequestData::ChatMessages(chat) => message@
                    == (MessageToStreamerView::ChatMessages {
                    id: request.id as int,
                    history: chat.history,
                    messages: chat_views(chat.messages@),
                }),
            },
            MessageToStreamer::Pong {  } => message@ is Pong,
        },
        outgoing@ == (OutgoingView { to: outgoing.to, message: outgoing.message@ }),
        outgoing_view(Some(outgoing)) == Some(outgoing@),
        outgoing_view(None) is None,
{
}

/// The content of an action leaves nothing out and changes nothing.
pub proof fn law_actions_are_what_they_hold(action: Action)
    ensures
        match action {
            Action::Send(outgoing) => action@ == ActionView::Send(outgoing@),
            Action::Close(c) => action@ == ActionView::Close(c),
            Action::StartTwitchChat { state, channel_name } => action@
                == (ActionView::StartTwitchChat { state, channel_name: channel_name@ }),
            Action::StartYouTubeChat { state, video_id } => action@
                == (ActionView::StartYouTubeChat { state, video_id: video_id@ }),
        },
{
}

} // verus!
