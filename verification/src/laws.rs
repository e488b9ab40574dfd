//! What holds of the assistant as a whole.

use vstd::prelude::*;
use vstd::utf8::encode_utf8;

use crate::model::{
    lemma_accept_wf, lemma_cleanup_wf, lemma_connect_wf, lemma_disconnect_wf, ActionView,
    AssistantView,
};
use crate::protocol::{
    optional_text, ChatMessageView, IdentifiedResult, MessageToAssistant, MessageToStreamerView,
    API_VERSION,
};
use crate::streamer::{
    expected_authentication, hardcoded, newest, ConnectionView, OutgoingView, StateView,
};
use crate::streamers::{
    is_dropped, is_kept, DisconnectedStreamer, Streamer, CLEANUP_INTERVAL_SECS, RETENTION_NANOS,
};
use crate::text::lowercase_text;
use crate::utils::{base64_text, sha256_digest};

verus! {

/// A client is told a challenge and a salt when it connects, and is accepted exactly if
/// it answers with the hash of the password, that salt and that challenge. It is
/// identified from then on.
pub proof fn law_only_the_password_is_accepted(
    a: AssistantView,
    password: Seq<char>,
    peer_address: Seq<char>,
    challenge: Seq<char>,
    salt: Seq<char>,
    authentication: Seq<char>,
    id: Option<Seq<char>>,
)
    requires
        a.wf(),
        a.next_connection < u64::MAX,
        a.next_state < u64::MAX,
    ensures
        ({
            let c = a.next_connection as u64;
            let b = a.connect(password, peer_address, challenge, salt);
            &&& b.connections[c].hello() == OutgoingView {
                to: c,
                message: MessageToStreamerView::Hello {
                    api_version: API_VERSION@,
                    challenge,
                    salt,
                },
            }
            &&& b.accepts(c, authentication) <==> authentication == base64_text(
                sha256_digest(
                    encode_utf8(
                        base64_text(sha256_digest(encode_utf8(password + salt))) + challenge,
                    ),
                ),
            )
            &&& b.accepts(c, authentication) <==> authentication == expected_authentication(
                password,
                salt,
                challenge,
            )
            &&& b.identify(c, authentication, id).connections[c].identified <==> b.accepts(
                c,
                authentication,
            )
        }),
{
}

/// An identify message that is not accepted changes nothing. It is answered that the
/// client is already identified, or else that the password is wrong.
pub proof fn law_refused_identify_changes_nothing(
    a: AssistantView,
    c: u64,
    authentication: Seq<char>,
    id: Option<Seq<char>>,
)
    requires
        a.wf(),
        a.connections.contains_key(c),
        !a.accepts(c, authentication),
    ensures
        a.identify(c, authentication, id) == a,
        a.identify_actions(c, authentication, id) == seq![
            ActionView::Send(
                OutgoingView {
                    to: c,
                    message: MessageToStreamerView::Identified(
                        if a.connections[c].identified {
                            IdentifiedResult::AlreadyIdentified {  }
                        } else {
                            IdentifiedResult::WrongPassword {  }
                        },
                    ),
                },
            ),
        ],
{
    assert(a.connection_wf(c));
}

/// A client that is not identified can do nothing but identify itself and ping.
pub proof fn law_unidentified_changes_nothing(
    a: AssistantView,
    c: u64,
    message: MessageToAssistant,
)
    requires
        a.connections.contains_key(c),
        !a.connections[c].identified,
        !(message is Identify),
    ensures
        a.handle(c, message) == a,
        !(message is Ping) ==> a.handle_actions(c, message) == Seq::<ActionView>::empty(),
{
}

/// Every ping is answered with a pong to the same connection, and changes nothing.
pub proof fn law_ping_is_answered(a: AssistantView, c: u64, message: MessageToAssistant)
    requires
        a.wf(),
        a.connections.contains_key(c),
        message is Ping,
    ensures
        a.handle(c, message) == a,
        a.handle_actions(c, message) == seq![
            ActionView::Send(OutgoingView { to: c, message: MessageToStreamerView::Pong }),
        ],
{
    assert(a.connection_wf(c));
}

/// Once identified, a client stays identified and keeps its name, whatever any client sends.
pub proof fn law_identified_for_good(
    a: AssistantView,
    c: u64,
    message: MessageToAssistant,
    other: u64,
)
    requires
        a.wf(),
        a.connections.contains_key(c),
        a.connections.contains_key(other),
        a.connections[other].identified,
    ensures
        a.handle(c, message).connections.contains_key(other),
        a.handle(c, message).connections[other].identified,
        a.handle(c, message).connections[other].streamer_id == a.connections[other].streamer_id,
{
    assert(a.connection_wf(c));
}

/// What a client sends changes no other connection, except that a client that is
/// accepted takes the state from the connection that had its name.
pub proof fn law_others_are_left_alone(
    a: AssistantView,
    c: u64,
    message: MessageToAssistant,
    other: u64,
)
    requires
        a.wf(),
        a.connections.contains_key(c),
        a.connections.contains_key(other),
        other != c,
    ensures
        a.handle(c, message).connections.contains_key(other),
        a.handle(c, message).connections[other] == a.connections[other] || {
            &&& message is Identify
            &&& a.connections[other].streamer_id is Some
            &&& a.handle(c, message).connections[c].streamer_id
                == a.connections[other].streamer_id
            &&& a.handle(c, message).connections[other].state is None
            &&& a.handle(c, message).connections[c].state == a.connections[other].state
        },
{
    if let MessageToAssistant::Identify(identify) = message {
        let id = optional_text(identify.streamer_id);
        if a.accepts(c, identify.authentication@) && a.previous(id) == Some(other) {
            assert(a.streamers.contains_key(id->0));
            assert(a.streamer_wf(id->0));
        }
    }
}

/// No two connections have the same state, and of the connections with the same name, at
/// most one has a state.
pub proof fn law_one_connection_per_streamer(a: AssistantView, c1: u64, c2: u64)
    requires
        a.wf(),
        a.connections.contains_key(c1),
        a.connections.contains_key(c2),
        a.connections[c1].state is Some,
        a.connections[c2].state is Some,
        a.connections[c1].state == a.connections[c2].state || (
        a.connections[c1].streamer_id is Some && a.connections[c1].streamer_id
            == a.connections[c2].streamer_id),
    ensures
        c1 == c2,
{
    assert(a.connection_wf(c1));
    assert(a.connection_wf(c2));
}

/// A streamer that comes back on another connection, while the first is still open, gets
/// its state there, with its history and chats. The first connection is closed and has
/// no say any more: nothing it asks for starts a chat, and its end changes nothing else.
pub proof fn law_takeover(a: AssistantView, c: u64, previous: u64, id: Seq<char>, now: u128)
    requires
        a.wf(),
        a.connections.contains_key(c),
        !a.connections[c].identified,
        a.streamers.contains_key(id),
        a.streamers[id] == Streamer::Connected(previous),
        a.states[a.state_of(previous)].request_id < i32::MAX,
    ensures
        ({
            let b = a.accept(c, Some(id));
            let s = a.state_of(previous);
            &&& b.wf()
            &&& b.connections[c].state == Some(s)
            &&& b.states[s] == StateView { writer: Some(c), ..a.states[s].next_request() }
            &&& b.streamers[id] == Streamer::Connected(c)
            &&& a.accept_actions(c, Some(id))[0] == ActionView::Close(previous)
            &&& forall|channel: Option<Seq<char>>|
                !#[trigger] b.starts_twitch_chat(previous, channel)
            &&& !b.starts_youtube_chat(previous)
            &&& b.disconnect(previous, now) == AssistantView {
                connections: b.connections.remove(previous),
                ..b
            }
        }),
{
    assert(a.streamer_wf(id));
    lemma_accept_wf(a, c, Some(id));
    assert(a.connection_wf(c));
    assert(a.connection_wf(previous));
}

/// A streamer that has disconnected and comes back before its state is forgotten gets the
/// state that it left, and is sent the history in it, or the hardcoded messages if there
/// is none.
pub proof fn law_history_survives_a_reconnect(
    a: AssistantView,
    c: u64,
    id: Seq<char>,
    now: u128,
    later: u128,
    password: Seq<char>,
    peer_address: Seq<char>,
    challenge: Seq<char>,
    salt: Seq<char>,
)
    requires
        a.wf(),
        a.connections.contains_key(c),
        a.connections[c].streamer_id == Some(id),
        a.connections[c].state is Some,
        a.states[a.state_of(c)].request_id < i32::MAX,
        later - now < RETENTION_NANOS,
        a.next_connection < u64::MAX,
        a.next_state < u64::MAX,
    ensures
        ({
            let s = a.state_of(c);
            let left = a.disconnect(c, now).cleanup(later);
            let d = a.next_connection as u64;
            let back = left.connect(password, peer_address, challenge, salt);
            let authentication = expected_authentication(password, salt, challenge);
            let b = back.identify(d, authentication, Some(id));
            &&& b.wf()
            &&& b.connections[d].state == Some(s)
            &&& b.states[s] == StateView { writer: Some(d), ..a.states[s].next_request() }
            &&& back.identify_actions(d, authentication, Some(id)) == seq![
                ActionView::Send(
                    OutgoingView {
                        to: d,
                        message: MessageToStreamerView::Identified(
                            IdentifiedResult::Accepted {  },
                        ),
                    },
                ),
                ActionView::Send(
                    OutgoingView {
                        to: d,
                        message: MessageToStreamerView::ChatMessages {
                            id: a.states[s].request_id + 1,
                            history: true,
                            messages: if a.states[s].chat_messages.len() == 0 {
                                hardcoded()
                            } else {
                                a.states[s].chat_messages
                            },
                        },
                    },
                ),
            ]
        }),
{
    let s = a.state_of(c);
    let gone = a.disconnect(c, now);
    let left = gone.cleanup(later);
    let d = a.next_connection as u64;
    let back = left.connect(password, peer_address, challenge, salt);
    let authentication = expected_authentication(password, salt, challenge);
    assert(a.connection_wf(c));
    lemma_disconnect_wf(a, c, now);
    lemma_cleanup_wf(gone, later);
    assert(gone.streamers.contains_key(id) && gone.left(id, s));
    assert(is_kept(gone.streamers[id], later));
    assert(left.streamers.contains_key(id));
    assert(left.streamer_wf(id));
    lemma_connect_wf(left, password, peer_address, challenge, salt);
    assert(left.state_wf(s));
    assert(s != left.next_state);
    lemma_accept_wf(back, d, Some(id));
    assert(back.identify_actions(d, authentication, Some(id)) =~= back.accept_actions(
        d,
        Some(id),
    ));
}

/// A client that is accepted is told so and then sent at least one chat message: the
/// history, or the hardcoded messages if nothing is stored. A client that is not accepted
/// is sent none.
pub proof fn law_chat_messages_follow_the_password(
    a: AssistantView,
    c: u64,
    authentication: Seq<char>,
    id: Option<Seq<char>>,
)
    requires
        a.wf(),
        a.connections.contains_key(c),
    ensures
        ({
            let actions = a.identify_actions(c, authentication, id);
            let state = a.states[a.found(c, id)];
            let messages = if state.chat_messages.len() == 0 {
                hardcoded()
            } else {
                state.chat_messages
            };
            let answer = ActionView::Send(
                OutgoingView {
                    to: c,
                    message: MessageToStreamerView::Identified(
                        a.identify_result(c, authentication),
                    ),
                },
            );
            if a.accepts(c, authentication) {
                &&& messages.len() > 0
                &&& actions.len() >= 2
                &&& actions[actions.len() - 2] == answer
                &&& actions.last() == ActionView::Send(
                    OutgoingView {
                        to: c,
                        message: MessageToStreamerView::ChatMessages {
                            id: state.request_id + 1,
                            history: true,
                            messages,
                        },
                    },
                )
            } else {
                actions == seq![answer]
            }
        }),
{
    assert(a.connection_wf(c));
}

/// A chat message that comes in while the streamer is away is stored and not sent; it is
/// the last one of the history.
pub proof fn law_messages_are_kept_while_away(state: StateView, message: ChatMessageView)
    requires
        state.wf(),
        state.writer is None,
    ensures
        state.request(false, seq![message]) is None,
        state.append(message).chat_messages.len() > 0,
        state.append(message).chat_messages.last() == message,
        state.append(message).chat_messages == newest(state.chat_messages.push(message)),
{
}

/// A chat message that comes in while the streamer is connected is sent at once, to the
/// connection that has the state, in a request of its own.
pub proof fn law_messages_are_sent_while_connected(
    a: AssistantView,
    c: u64,
    message: ChatMessageView,
)
    requires
        a.wf(),
        a.connections.contains_key(c),
        a.connections[c].state is Some,
    ensures
        ({
            let state = a.states[a.state_of(c)];
            state.request(false, seq![message]) == Some(
                OutgoingView {
                    to: c,
                    message: MessageToStreamerView::ChatMessages {
                        id: state.request_id + 1,
                        history: false,
                        messages: seq![message],
                    },
                },
            )
        }),
{
    assert(a.connection_wf(c));
}

/// A streamer that comes back after it has been forgotten starts with an empty history.
pub proof fn law_the_long_gone_start_afresh(
    a: AssistantView,
    c: u64,
    id: Seq<char>,
    now: u128,
    later: u128,
    password: Seq<char>,
    peer_address: Seq<char>,
    challenge: Seq<char>,
    salt: Seq<char>,
)
    requires
        a.wf(),
        a.connections.contains_key(c),
        a.connections[c].streamer_id == Some(id),
        a.connections[c].state is Some,
        later - now >= RETENTION_NANOS,
        a.next_connection < u64::MAX,
        a.next_state < u64::MAX,
    ensures
        ({
            let d = a.next_connection as u64;
            let back = a.disconnect(c, now).cleanup(later).connect(
                password,
                peer_address,
                challenge,
                salt,
            );
            let b = back.accept(d, Some(id));
            &&& b.wf()
            &&& b.states[b.state_of(d)] == StateView::initial(d).next_request()
            &&& !b.states.contains_key(a.state_of(c))
        }),
{
    let gone = a.disconnect(c, now);
    let left = gone.cleanup(later);
    let d = a.next_connection as u64;
    let back = left.connect(password, peer_address, challenge, salt);
    assert(a.connection_wf(c));
    lemma_disconnect_wf(a, c, now);
    lemma_cleanup_wf(gone, later);
    assert(gone.streamers.contains_key(id) && gone.left(id, a.state_of(c)));
    law_cleanup_forgets_the_long_gone(gone, later, id);
    lemma_connect_wf(left, password, peer_address, challenge, salt);
    lemma_accept_wf(back, d, Some(id));
    assert(a.state_wf(a.state_of(c)));
}

/// A streamer that has not named itself leaves nothing behind.
pub proof fn law_the_nameless_leave_nothing(a: AssistantView, c: u64, now: u128)
    requires
        a.wf(),
        a.connections.contains_key(c),
        a.connections[c].streamer_id is None,
    ensures
        a.disconnect(c, now) == (AssistantView {
            connections: a.connections.remove(c),
            states: a.states.remove(a.state_of(c)),
            ..a
        }),
{
    assert(a.connection_wf(c));
}

/// Once a Twitch chat is read for a streamer, no further one is started, until it has ended.
pub proof fn law_one_twitch_chat(
    a: AssistantView,
    c: u64,
    channel: Option<Seq<char>>,
    another: Option<Seq<char>>,
)
    requires
        a.wf(),
        a.connections.contains_key(c),
        a.starts_twitch_chat(c, channel),
    ensures
        a.twitch_start(c, channel).states[a.state_of(c)].twitch_chat,
        a.twitch_start(c, channel).twitch_start_actions(c, another)
            == Seq::<ActionView>::empty(),
        a.twitch_start(c, channel).twitch_start(c, another) == a.twitch_start(c, channel),
{
}

/// Once a YouTube chat is read for a streamer, no further one is started, until it has ended.
pub proof fn law_one_youtube_chat(a: AssistantView, c: u64, another: Seq<char>)
    requires
        a.wf(),
        a.connections.contains_key(c),
        a.starts_youtube_chat(c),
    ensures
        a.youtube_start(c).states[a.state_of(c)].youtube_chat,
        a.youtube_start(c).youtube_start_actions(c, another) == Seq::<ActionView>::empty(),
        a.youtube_start(c).youtube_start(c) == a.youtube_start(c),
{
}

/// Whatever a client sends, the numbers of requests only grow, and the history and the
/// numbers of chat messages stay.
pub proof fn law_numbers_only_grow(
    a: AssistantView,
    c: u64,
    message: MessageToAssistant,
    s: u64,
)
    requires
        a.wf(),
        a.connections.contains_key(c),
        a.states.contains_key(s),
        a.handle(c, message).states.contains_key(s),
    ensures
        a.handle(c, message).states[s].request_id >= a.states[s].request_id,
        a.handle(c, message).states[s].chat_message_id == a.states[s].chat_message_id,
        a.handle(c, message).states[s].chat_messages == a.states[s].chat_messages,
{
}

/// Forgetting streamers touches no connection and no streamer that is connected, nor the
/// state that it has.
pub proof fn law_cleanup_keeps_the_connected(a: AssistantView, now: u128, c: u64)
    requires
        a.wf(),
        a.connections.contains_key(c),
    ensures
        a.cleanup(now).connections == a.connections,
        a.connections[c].state matches Some(s) ==> {
            &&& a.cleanup(now).states.contains_key(s)
            &&& a.cleanup(now).states[s] == a.states[s]
        },
        a.connections[c].state is Some ==> (a.connections[c].streamer_id matches Some(id) ==> {
            &&& a.cleanup(now).streamers.contains_key(id)
            &&& a.cleanup(now).streamers[id] == Streamer::Connected(c)
        }),
{
    lemma_cleanup_wf(a, now);
    assert(a.connection_wf(c));
    assert(a.cleanup(now).connection_wf(c));
}

/// Forgetting streamers forgets exactly those that have been away for an hour or more,
/// with their states.
pub proof fn law_cleanup_forgets_the_long_gone(a: AssistantView, now: u128, id: Seq<char>)
    requires
        a.wf(),
        a.streamers.contains_key(id),
    ensures
        a.cleanup(now).streamers.contains_key(id) <==> is_kept(a.streamers[id], now),
        a.cleanup(now).streamers.contains_key(id) <==> (a.streamers[id] matches
            Streamer::Disconnected(d) ==> now - d.time < 3_600_000_000_000),
        a.cleanup(now).streamers.contains_key(id) ==> a.cleanup(now).streamers[id]
            == a.streamers[id],
        a.streamers[id] matches Streamer::Disconnected(d) ==> (a.cleanup(
            now,
        ).states.contains_key(d.state) <==> now - d.time < RETENTION_NANOS),
{
    lemma_cleanup_wf(a, now);
    if let Streamer::Disconnected(d) = a.streamers[id] {
        assert(a.streamer_wf(id));
        if is_kept(a.streamers[id], now) {
            assert(a.cleanup(now).streamers.contains_key(id));
            assert(a.cleanup(now).streamer_wf(id));
        }
    }
}

/// Nobody is connected to a new assistant, and nothing is kept.
pub proof fn law_a_new_assistant_is_empty()
    ensures
        ({
            let a = AssistantView::initial();
            &&& a.wf()
            &&& forall|c: u64| !#[trigger] a.connections.contains_key(c)
            &&& forall|s: u64| !#[trigger] a.states.contains_key(s)
            &&& forall|id: Seq<char>| !#[trigger] a.streamers.contains_key(id)
        }),
{
}

/// Somebody who connects gets a connection and a state with numbers that nobody had before;
/// all others, and the streamers, stay as they are.
pub proof fn law_connecting_adds_one(
    a: AssistantView,
    password: Seq<char>,
    peer_address: Seq<char>,
    challenge: Seq<char>,
    salt: Seq<char>,
)
    requires
        a.wf(),
        a.next_connection < u64::MAX,
        a.next_state < u64::MAX,
    ensures
        ({
            let c = a.next_connection as u64;
            let s = a.next_state as u64;
            let b = a.connect(password, peer_address, challenge, salt);
            &&& !a.connections.contains_key(c)
            &&& !a.states.contains_key(s)
            &&& b.connections == a.connections.insert(c, b.connections[c])
            &&& b.connections[c] == (ConnectionView {
                password,
                peer_address,
                writer: c,
                challenge,
                salt,
                identified: false,
                streamer_id: None,
                state: Some(s),
            })
            &&& b.states == a.states.insert(s, b.states[s])
            &&& b.states[s] == (StateView {
                writer: Some(c),
                request_id: 0,
                chat_message_id: 0,
                chat_messages: seq![],
                twitch_chat: false,
                youtube_chat: false,
            })
            &&& b.streamers == a.streamers
            &&& b.next_connection == a.next_connection + 1
            &&& b.next_state == a.next_state + 1
        }),
{
    let c = a.next_connection as u64;
    let s = a.next_state as u64;
    if a.connections.contains_key(c) {
        assert(a.connection_wf(c));
    }
    if a.states.contains_key(s) {
        assert(a.state_wf(s));
    }
    let b = a.connect(password, peer_address, challenge, salt);
    assert(b.connections =~= a.connections.insert(c, b.connections[c]));
    assert(b.states =~= a.states.insert(s, b.states[s]));
    assert(b.states[s].chat_messages =~= seq![]);
}

/// The connection `c` as it is once it is identified as `id` and has the state `s`.
pub open spec fn identified_as(
    a: AssistantView,
    c: u64,
    id: Option<Seq<char>>,
    s: u64,
) -> ConnectionView {
    ConnectionView { identified: true, streamer_id: id, state: Some(s), ..a.connections[c] }
}

/// The state `s` as it is once it is written to the connection `c` and a request has been sent.
pub open spec fn written_to(a: AssistantView, s: u64, c: u64) -> StateView {
    StateView { writer: Some(c), request_id: a.states[s].request_id + 1, ..a.states[s] }
}

/// A client that is accepted and has no name, or a name that nobody has, keeps its state; a
/// name is noted. Nothing else changes.
pub proof fn law_a_stranger_keeps_its_state(a: AssistantView, c: u64, id: Option<Seq<char>>)
    requires
        a.wf(),
        a.connections.contains_key(c),
        !a.connections[c].identified,
        id matches Some(name) ==> !a.streamers.contains_key(name),
    ensures
        ({
            let b = a.accept(c, id);
            let s = a.connections[c].state->0;
            &&& a.connections[c].state is Some
            &&& b.connections == a.connections.insert(c, identified_as(a, c, id, s))
            &&& b.states == a.states.insert(s, written_to(a, s, c))
            &&& b.streamers == match id {
                Some(name) => a.streamers.insert(name, Streamer::Connected(c)),
                None => a.streamers,
            }
            &&& b.next_connection == a.next_connection
            &&& b.next_state == a.next_state
        }),
{
    assert(a.connection_wf(c));
    let b = a.accept(c, id);
    let s = a.connections[c].state->0;
    assert(b.connections =~= a.connections.insert(c, identified_as(a, c, id, s)));
    assert(b.states =~= a.states.insert(s, written_to(a, s, c)));
}

/// A client that is accepted with the name of a streamer that has left gets the state that
/// was left, in place of its own, which ends. Nothing else changes.
pub proof fn law_a_streamer_gets_back_what_it_left(
    a: AssistantView,
    c: u64,
    name: Seq<char>,
    left: DisconnectedStreamer,
)
    requires
        a.wf(),
        a.connections.contains_key(c),
        !a.connections[c].identified,
        a.streamers.contains_key(name),
        a.streamers[name] == Streamer::Disconnected(left),
    ensures
        ({
            let b = a.accept(c, Some(name));
            let s = left.state;
            let own = a.connections[c].state->0;
            &&& a.connections[c].state is Some
            &&& own != s
            &&& b.connections == a.connections.insert(c, identified_as(a, c, Some(name), s))
            &&& b.states == a.states.remove(own).insert(s, written_to(a, s, c))
            &&& b.streamers == a.streamers.insert(name, Streamer::Connected(c))
            &&& b.next_connection == a.next_connection
            &&& b.next_state == a.next_state
            &&& a.accept_actions(c, Some(name)).len() == 2
        }),
{
    assert(a.connection_wf(c));
    assert(a.streamer_wf(name));
    let b = a.accept(c, Some(name));
    let s = left.state;
    let own = a.connections[c].state->0;
    assert(b.connections =~= a.connections.insert(c, identified_as(a, c, Some(name), s)));
    assert(b.states =~= a.states.remove(own).insert(s, written_to(a, s, c)));
}

/// A client that is accepted with the name of a streamer that is connected gets the state of
/// that connection, in place of its own, which ends. The other connection loses the state
/// and is closed first. Nothing else changes.
pub proof fn law_a_streamer_moves_to_its_new_connection(
    a: AssistantView,
    c: u64,
    name: Seq<char>,
    previous: u64,
)
    requires
        a.wf(),
        a.connections.contains_key(c),
        !a.connections[c].identified,
        a.streamers.contains_key(name),
        a.streamers[name] == Streamer::Connected(previous),
    ensures
        ({
            let b = a.accept(c, Some(name));
            let s = a.connections[previous].state->0;
            let own = a.connections[c].state->0;
            &&& a.connections[c].state is Some
            &&& a.connections.contains_key(previous)
            &&& a.connections[previous].state is Some
            &&& previous != c
            &&& own != s
            &&& b.connections == a.connections.insert(
                previous,
                ConnectionView { state: None, ..a.connections[previous] },
            ).insert(c, identified_as(a, c, Some(name), s))
            &&& b.states == a.states.remove(own).insert(s, written_to(a, s, c))
            &&& b.streamers == a.streamers.insert(name, Streamer::Connected(c))
            &&& b.next_connection == a.next_connection
            &&& b.next_state == a.next_state
            &&& a.accept_actions(c, Some(name)).len() == 3
            &&& a.accept_actions(c, Some(name))[0] == ActionView::Close(previous)
        }),
{
    assert(a.connection_wf(c));
    assert(a.streamer_wf(name));
    assert(a.connection_wf(previous));
    let b = a.accept(c, Some(name));
    let s = a.connections[previous].state->0;
    let own = a.connections[c].state->0;
    assert(b.connections =~= a.connections.insert(
        previous,
        ConnectionView { state: None, ..a.connections[previous] },
    ).insert(c, identified_as(a, c, Some(name), s)));
    assert(b.states =~= a.states.remove(own).insert(s, written_to(a, s, c)));
}

/// Only the connection that a client takes over is closed, and that only when it is accepted.
pub proof fn law_nobody_else_is_closed(
    a: AssistantView,
    c: u64,
    message: MessageToAssistant,
    i: int,
    closed: u64,
)
    requires
        a.wf(),
        a.connections.contains_key(c),
        0 <= i < a.handle_actions(c, message).len(),
        a.handle_actions(c, message)[i] == ActionView::Close(closed),
    ensures
        message is Identify,
        i == 0,
        a.connections.contains_key(closed),
        closed != c,
        a.connections[closed].streamer_id is Some,
        a.handle(c, message).connections[c].streamer_id == a.connections[closed].streamer_id,
{
    if let MessageToAssistant::Identify(identify) = message {
        let id = optional_text(identify.streamer_id);
        assert(a.connection_wf(c));
        if a.previous(id) is Some {
            assert(a.streamers.contains_key(id->0));
            assert(a.streamer_wf(id->0));
        }
    }
}

/// Each kind of message is handled as what it is: an identify message by what it says, a
/// question for a chat by the channel or the video that it names, and the others not at all,
/// but that a ping is answered.
pub proof fn law_messages_are_told_apart(a: AssistantView, c: u64, message: MessageToAssistant)
    ensures
        match message {
            MessageToAssistant::Identify(identify) => {
                let name = match identify.streamer_id {
                    Some(name) => Some(name@),
                    None => None,
                };
                &&& a.handle(c, message) == a.identify(c, identify.authentication@, name)
                &&& a.handle_actions(c, message) == a.identify_actions(
                    c,
                    identify.authentication@,
                    name,
                )
                &&& a.accepts(c, identify.authentication@) ==> a.handle(c, message) == a.accept(
                    c,
                    name,
                )
                &&& !a.accepts(c, identify.authentication@) ==> a.handle(c, message) == a
            },
            MessageToAssistant::TwitchStart(start) => {
                let channel = match start.channel_name {
                    Some(channel) => Some(channel@),
                    None => None,
                };
                &&& a.handle(c, message) == a.twitch_start(c, channel)
                &&& a.handle_actions(c, message) == a.twitch_start_actions(c, channel)
            },
            MessageToAssistant::YouTubeStart(start) => {
                &&& a.handle(c, message) == a.youtube_start(c)
                &&& a.handle_actions(c, message) == a.youtube_start_actions(c, start.video_id@)
            },
            MessageToAssistant::Ping(_) => a.handle(c, message) == a,
            _ => a.handle(c, message) == a && a.handle_actions(c, message).len() == 0,
        },
{
}

/// A Twitch chat is started exactly if the client is identified, still has its state, names a
/// channel, and no Twitch chat is read for the state. It is then read for that state, by the
/// name of the channel in lower case, and this is noted. Nothing else changes.
pub proof fn law_when_a_twitch_chat_starts(
    a: AssistantView,
    c: u64,
    channel: Option<Seq<char>>,
)
    ensures
        ({
            let connection = a.connections[c];
            let s = connection.state->0;
            let starts = connection.identified && connection.state is Some && channel is Some
                && !a.states[s].twitch_chat;
            &&& starts ==> {
                &&& a.twitch_start(c, channel) == (AssistantView {
                    states: a.states.insert(s, StateView { twitch_chat: true, ..a.states[s] }),
                    ..a
                })
                &&& a.twitch_start_actions(c, channel) == seq![
                    ActionView::StartTwitchChat {
                        state: s,
                        channel_name: lowercase_text(channel->0),
                    },
                ]
            }
            &&& !starts ==> a.twitch_start(c, channel) == a && a.twitch_start_actions(
                c,
                channel,
            ).len() == 0
            &&& a.starts_twitch_chat(c, channel) <==> starts
        }),
{
}

/// A YouTube chat is started exactly if the client is identified, still has its state, and no
/// YouTube chat is read for the state. It is then read for that state, by the video that the
/// client names, and this is noted. Nothing else changes.
pub proof fn law_when_a_youtube_chat_starts(a: AssistantView, c: u64, video_id: Seq<char>)
    ensures
        ({
            let connection = a.connections[c];
            let s = connection.state->0;
            let starts = connection.identified && connection.state is Some
                && !a.states[s].youtube_chat;
            &&& starts ==> {
                &&& a.youtube_start(c) == (AssistantView {
                    states: a.states.insert(s, StateView { youtube_chat: true, ..a.states[s] }),
                    ..a
                })
                &&& a.youtube_start_actions(c, video_id) == seq![
                    ActionView::StartYouTubeChat { state: s, video_id },
                ]
            }
            &&& !starts ==> a.youtube_start(c) == a && a.youtube_start_actions(
                c,
                video_id,
            ).len() == 0
            &&& a.starts_youtube_chat(c) <==> starts
        }),
{
}

/// The two chats of a streamer do not stand in each other's way.
pub proof fn law_chats_start_in_any_order(
    a: AssistantView,
    c: u64,
    channel: Option<Seq<char>>,
    video_id: Seq<char>,
)
    ensures
        a.twitch_start(c, channel).youtube_start_actions(c, video_id) == a.youtube_start_actions(
            c,
            video_id,
        ),
        a.youtube_start(c).twitch_start_actions(c, channel) == a.twitch_start_actions(c, channel),
        a.twitch_start(c, channel).youtube_start(c).states == a.youtube_start(c).twitch_start(
            c,
            channel,
        ).states,
{
    assert(a.twitch_start(c, channel).youtube_start(c).states =~= a.youtube_start(
        c,
    ).twitch_start(c, channel).states);
}

/// A streamer with a name that disconnects leaves its state, as it is but for the connection,
/// with the time. Nothing else changes.
pub proof fn law_a_streamer_leaves_its_state(a: AssistantView, c: u64, name: Seq<char>, now: u128)
    requires
        a.wf(),
        a.connections.contains_key(c),
        a.connections[c].streamer_id == Some(name),
        a.connections[c].state is Some,
    ensures
        ({
            let s = a.connections[c].state->0;
            a.disconnect(c, now) == (AssistantView {
                connections: a.connections.remove(c),
                states: a.states.insert(s, StateView { writer: None, ..a.states[s] }),
                streamers: a.streamers.insert(
                    name,
                    Streamer::Disconnected(DisconnectedStreamer { state: s, time: now }),
                ),
                ..a
            })
        }),
{
}

/// Forgetting streamers keeps exactly the states that no streamer left an hour ago or
/// earlier, as they are, and changes no connection.
pub proof fn law_forgetting_keeps_all_other_states(a: AssistantView, now: u128, s: u64)
    requires
        a.wf(),
    ensures
        ({
            let b = a.cleanup(now);
            let long_gone = exists|name: Seq<char>| #[trigger]
                a.streamers.contains_key(name) && (a.streamers[name] matches
                    Streamer::Disconnected(d) && d.state == s && now - d.time
                    >= 3_600_000_000_000);
            &&& b.states.contains_key(s) <==> a.states.contains_key(s) && !long_gone
            &&& b.states.contains_key(s) ==> b.states[s] == a.states[s]
            &&& b.connections == a.connections
            &&& b.next_connection == a.next_connection
            &&& b.next_state == a.next_state
            &&& forall|name: Seq<char>| #[trigger]
                b.streamers.contains_key(name) ==> a.streamers.contains_key(name)
        }),
{
    let b = a.cleanup(now);
    if exists|name: Seq<char>| #[trigger]
        a.streamers.contains_key(name) && (a.streamers[name] matches Streamer::Disconnected(d)
            && d.state == s && now - d.time >= 3_600_000_000_000) {
        let name = choose|name: Seq<char>| #[trigger]
            a.streamers.contains_key(name) && (a.streamers[name] matches Streamer::Disconnected(d)
                && d.state == s && now - d.time >= 3_600_000_000_000);
        assert(a.streamers.contains_key(name) && !is_kept(a.streamers[name], now));
        assert(is_dropped(a.streamers, now, s));
    }
    if is_dropped(a.streamers, now, s) {
        let name = choose|name: Seq<char>| #[trigger]
            a.streamers.contains_key(name) && !is_kept(a.streamers[name], now) && (
            a.streamers[name] matches Streamer::Disconnected(d) && d.state == s);
        assert(a.streamers.contains_key(name));
    }
}

/// A state that changes leaves all else as it is.
pub proof fn law_a_state_changes_alone(a: AssistantView, s: u64, state: StateView)
    ensures
        ({
            let b = a.with_state(s, state);
            &&& b.states == a.states.insert(s, state)
            &&& b.connections == a.connections
            &&& b.streamers == a.streamers
            &&& b.next_connection == a.next_connection
            &&& b.next_state == a.next_state
        }),
{
}

/// A client is accepted exactly if it is not identified yet and its answer is the base64 text
/// of the digest of the base64 text of the digest of the password and the salt, and the
/// challenge, whatever happened before.
pub proof fn law_who_is_accepted(a: AssistantView, c: u64, authentication: Seq<char>)
    ensures
        ({
            let connection = a.connections[c];
            a.accepts(c, authentication) <==> !connection.identified && authentication
                == base64_text(
                sha256_digest(
                    encode_utf8(
                        base64_text(
                            sha256_digest(encode_utf8(connection.password + connection.salt)),
                        ) + connection.challenge,
                    ),
                ),
            )
        }),
{
}

/// Only a client that is accepted needs a request number, one that its state has left.
pub proof fn law_which_messages_can_be_handled(
    a: AssistantView,
    c: u64,
    message: MessageToAssistant,
)
    ensures
        a.can_handle(c, message) <==> match message {
            MessageToAssistant::Identify(identify) => {
                let name = match identify.streamer_id {
                    Some(name) => Some(name@),
                    None => None,
                };
                a.accepts(c, identify.authentication@) ==> a.states[a.found(c, name)].request_id
                    < 2_147_483_647
            },
            _ => true,
        },
{
}

/// Streamers are forgotten every fifteen minutes, once they have been away for an hour.
pub proof fn law_how_long_is_waited()
    ensures
        CLEANUP_INTERVAL_SECS == 15 * 60,
        RETENTION_NANOS == 60 * 60 * 1_000_000_000,
{
}

} // verus!
