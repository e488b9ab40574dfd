//! The assistant: all connections, all streamers' states, and what happens to them.

use std::collections::HashMap;

use vstd::prelude::*;

use crate::model::{
    action_views, lemma_accept_wf, lemma_cleanup_wf, lemma_connect_wf, lemma_disconnect_wf,
    lemma_with_state_wf, Action, ActionView, AssistantView,
};
use crate::protocol::{
    optional_text, IdentifiedResult, IdentifyMessage, MessageToAssistant, TwitchStartMessage,
    YouTubeStartMessage,
};
use crate::streamer::{
    outgoing_view, ConnectionView, Outgoing, StateView, StreamerConnection, StreamerState,
};
use crate::streamers::{is_dropped, kept, DisconnectedStreamer, Streamer, Streamers};
use crate::twitch::{can_create_chat_message, chat_message, has_chat_message, ServerMessage};
use crate::utils::is_random_string;
use crate::youtube::{
    appended, can_append, count_messages, lemma_appended, live_chat_continuation,
    live_chat_descriptions, next_delay, outgoing_views, shown, youtube_chat_session, GetLiveChat,
    SessionView, YouTubeError, YouTubeSession,
};

verus! {

/// What comes in on a connection's socket.
#[derive(Debug)]
pub enum SocketMessage {
    /// A text, with the message that it holds if it holds one.
    Text(Option<MessageToAssistant>),
    /// A ping of the socket itself.
    Ping(Vec<u8>),
    /// The answer to a ping of the socket itself could not be sent.
    PongFailed,
    /// The end of the connection.
    Close,
    /// Anything else.
    Other,
}

/// What has to be done about a message on a connection's socket.
#[derive(Debug)]
pub enum SocketReply {
    /// Do this, in order.
    Act(Vec<Action>),
    /// Answer the socket's ping with this.
    Pong(Vec<u8>),
    /// Nothing.
    Ignore,
    /// End the connection.
    End,
}

/// What has to be done about a message in a chat.
#[derive(Debug)]
pub enum ChatStep {
    /// There is nobody to read the chat for any more.
    Ended,
    /// Send this, if there is anything, and go on.
    Going(Option<Outgoing>),
}

/// The contents of connections.
pub open spec fn connection_views(connections: Map<u64, StreamerConnection>) -> Map<
    u64,
    ConnectionView,
> {
    connections.map_values(|c: StreamerConnection| c@)
}

/// The contents of states.
pub open spec fn state_views(states: Map<u64, StreamerState>) -> Map<u64, StateView> {
    states.map_values(|s: StreamerState| s@)
}

/// The assistant: the connections and the streamers' states, by their numbers, and
/// the streamers that have named themselves.
pub struct Assistant {
    connections: HashMap<u64, StreamerConnection>,
    states: HashMap<u64, StreamerState>,
    streamers: Streamers,
    next_connection: u64,
    next_state: u64,
}

impl View for Assistant {
    type V = AssistantView;

    closed spec fn view(&self) -> AssistantView {
        AssistantView {
            connections: connection_views(self.connections@),
            states: state_views(self.states@),
            streamers: self.streamers@,
            next_connection: self.next_connection as int,
            next_state: self.next_state as int,
        }
    }
}

impl Assistant {
    /// No two streamers have the same name.
    pub closed spec fn names_wf(self) -> bool {
        self.streamers.wf()
    }

    /// What always holds of the assistant.
    pub open spec fn wf(self) -> bool {
        &&& self.names_wf()
        &&& self@.wf()
    }

    /// An assistant that nobody has connected to.
    pub fn new() -> (r: Assistant)
        ensures
            r.wf(),
            r@ == AssistantView::initial(),
    {
        let r = Assistant {
            connections: HashMap::new(),
            states: HashMap::new(),
            streamers: Streamers::new(),
            next_connection: 0,
            next_state: 0,
        };
        assert(r@ =~= AssistantView::initial());
        r
    }

    /// Whether there are numbers left for another connection and its state.
    pub fn can_connect(&self) -> (r: bool)
        ensures
            r == (self@.next_connection < u64::MAX && self@.next_state < u64::MAX),
    {
        self.next_connection < u64::MAX && self.next_state < u64::MAX
    }

    /// Takes in a connection with the next number, and a new state.
    fn take_in(&mut self, connection: StreamerConnection) -> (r: Outgoing)
        requires
            old(self).wf(),
            old(self)@.next_connection < u64::MAX,
            old(self)@.next_state < u64::MAX,
            connection@ == ConnectionView::initial(
                connection@.password,
                connection@.peer_address,
                old(self)@.next_connection as u64,
                old(self)@.next_state as u64,
                connection@.challenge,
                connection@.salt,
            ),
        ensures
            final(self).wf(),
            final(self)@ == old(self)@.connect(
                connection@.password,
                connection@.peer_address,
                connection@.challenge,
                connection@.salt,
            ),
            r@ == connection@.hello(),
    {
        let hello = connection.send_hello();
        let state = StreamerState::new(self.next_connection);
        self.states.insert(self.next_state, state);
        self.connections.insert(self.next_connection, connection);
        self.next_connection += 1;
        self.next_state += 1;
        proof {
            lemma_connect_wf(
                old(self)@,
                connection@.password,
                connection@.peer_address,
                connection@.challenge,
                connection@.salt,
            );
            assert(self@ =~= old(self)@.connect(
                connection@.password,
                connection@.peer_address,
                connection@.challenge,
                connection@.salt,
            ));
        }
        hello
    }

    /// Somebody connects. The result is the number of the connection, and the message
    /// that starts the conversation, with a fresh challenge and salt.
    pub fn connect(&mut self, password: String, peer_address: String) -> (r: (u64, Outgoing))
        requires
            old(self).wf(),
            old(self)@.next_connection < u64::MAX,
            old(self)@.next_state < u64::MAX,
        ensures
            final(self).wf(),
            r.0 == old(self)@.next_connection,
            is_random_string(final(self)@.connections[r.0].challenge),
            is_random_string(final(self)@.connections[r.0].salt),
            final(self)@ == old(self)@.connect(
                password@,
                peer_address@,
                final(self)@.connections[r.0].challenge,
                final(self)@.connections[r.0].salt,
            ),
            r.1@ == final(self)@.connections[r.0].hello(),
    {
        let c: u64 = self.next_connection;
        let connection = StreamerConnection::new(password, peer_address, c, self.next_state);
        let hello = self.take_in(connection);
        (c, hello)
    }

    /// Somebody connects, and gets this challenge and salt.
    pub fn connect_with_secrets(
        &mut self,
        password: String,
        peer_address: String,
        challenge: String,
        salt: String,
    ) -> (r: (u64, Outgoing))
        requires
            old(self).wf(),
            old(self)@.next_connection < u64::MAX,
            old(self)@.next_state < u64::MAX,
        ensures
            final(self).wf(),
            r.0 == old(self)@.next_connection,
            final(self)@ == old(self)@.connect(password@, peer_address@, challenge@, salt@),
            r.1@ == final(self)@.connections[r.0].hello(),
    {
        let c: u64 = self.next_connection;
        let connection = StreamerConnection::with_secrets(
            password,
            peer_address,
            c,
            self.next_state,
            challenge,
            salt,
        );
        let hello = self.take_in(connection);
        (c, hello)
    }

    /// Whether there is a connection with the number `c`.
    pub fn has_connection(&self, c: u64) -> (r: bool)
        ensures
            r == self@.connections.contains_key(c),
    {
        self.connections.contains_key(&c)
    }

    /// Whether there is a state with the number `s`.
    pub fn has_state(&self, s: u64) -> (r: bool)
        ensures
            r == self@.states.contains_key(s),
    {
        self.states.contains_key(&s)
    }

    /// How many streamers have named themselves and are kept.
    pub fn streamer_count(&self) -> (r: usize)
        requires
            self.wf(),
        ensures
            self@.streamers.dom().finite(),
            r == self@.streamers.dom().len(),
    {
        self.streamers.len()
    }

    /// The connection `c` has proved that it knows the password, and names itself.
    pub fn handle_identify_correct_password(&mut self, c: u64, streamer_id: Option<String>) -> (r: Vec<
        Action,
    >)
        requires
            old(self).wf(),
            old(self)@.connections.contains_key(c),
            !old(self)@.connections[c].identified,
            old(self)@.states[old(self)@.found(c, optional_text(streamer_id))].request_id
                < i32::MAX,
        ensures
            final(self).wf(),
            final(self)@ == old(self)@.accept(c, optional_text(streamer_id)),
            action_views(r@) == old(self)@.accept_actions(c, optional_text(streamer_id)),
    {
        let ghost a = self@;
        let ghost id = optional_text(streamer_id);
        proof {
            lemma_accept_wf(a, c, id);
        }
        let mut actions: Vec<Action> = Vec::new();
        let mut connection = self.connections.remove(&c).unwrap();
        let own: u64 = connection.state().unwrap();
        let mut s: u64 = own;
        if let Some(name) = &streamer_id {
            match self.streamers.remove(name) {
                Some(Streamer::Connected(previous)) => {
                    let mut other = self.connections.remove(&previous).unwrap();
                    s = other.state().unwrap();
                    other.set_state(None);
                    self.connections.insert(previous, other);
                    actions.push(Action::Close(previous));
                },
                Some(Streamer::Disconnected(disconnected)) => {
                    s = disconnected.state;
                },
                None => {},
            }
            self.streamers.insert(name.clone(), Streamer::Connected(c));
        }
        if s != own {
            let _ = self.states.remove(&own);
        }
        connection.set_identified(streamer_id);
        connection.set_state(Some(s));
        actions.push(
            Action::Send(connection.send_identified(IdentifiedResult::Accepted {  })),
        );
        self.connections.insert(c, connection);
        let mut state = self.states.remove(&s).unwrap();
        state.set_writer(Some(c));
        let request = if state.has_chat_messages() {
            state.send_chat_history()
        } else {
            state.send_hardcoded_messages()
        };
        if let Some(request) = request {
            actions.push(Action::Send(request));
        }
        self.states.insert(s, state);
        proof {
            let b = a.accept(c, id);
            assert(self@.connections =~= b.connections);
            assert(self@.states =~= b.states);
            assert(self@.streamers =~= b.streamers);
            assert(action_views(actions@) =~= a.accept_actions(c, id));
        }
        actions
    }

    /// The connection `c` sends an identify message.
    fn handle_identify(&mut self, c: u64, identify: IdentifyMessage) -> (r: Vec<Action>)
        requires
            old(self).wf(),
            old(self)@.connections.contains_key(c),
            old(self)@.can_handle(c, MessageToAssistant::Identify(identify)),
        ensures
            final(self).wf(),
            final(self)@ == old(self)@.identify(
                c,
                identify.authentication@,
                optional_text(identify.streamer_id),
            ),
            action_views(r@) == old(self)@.identify_actions(
                c,
                identify.authentication@,
                optional_text(identify.streamer_id),
            ),
    {
        let connection = self.connections.get(&c).unwrap();
        let expected = connection.hash_password();
        let result = connection.identify_result(&identify.authentication, &expected);
        if result == (IdentifiedResult::Accepted {  }) {
            return self.handle_identify_correct_password(c, identify.streamer_id);
        }
        let mut actions: Vec<Action> = Vec::new();
        actions.push(Action::Send(connection.send_identified(result)));
        assert(action_views(actions@) =~= old(self)@.identify_actions(
            c,
            identify.authentication@,
            optional_text(identify.streamer_id),
        ));
        actions
    }

    /// The connection `c` asks for the chat of the Twitch channel with this name, which is
    /// in lower case already.
    pub fn start_twitch_chat(&mut self, c: u64, channel_name: String) -> (r: Vec<Action>)
        requires
            old(self).wf(),
            old(self)@.connections.contains_key(c),
        ensures
            final(self).wf(),
            final(self)@ == old(self)@.twitch_start(c, Some(channel_name@)),
            action_views(r@) == if old(self)@.starts_twitch_chat(c, Some(channel_name@)) {
                seq![
                    ActionView::StartTwitchChat {
                        state: old(self)@.state_of(c),
                        channel_name: channel_name@,
                    },
                ]
            } else {
                seq![]
            },
    {
        let ghost a = self@;
        let ghost channel = Some(channel_name@);
        let mut actions: Vec<Action> = Vec::new();
        assert(action_views(actions@) =~= seq![]);
        let connection = self.connections.get(&c).unwrap();
        if !connection.is_identified() {
            return actions;
        }
        let s: u64 = match connection.state() {
            Some(s) => s,
            None => {
                return actions;
            },
        };
        let mut state = self.states.remove(&s).unwrap();
        let ghost started = ActionView::StartTwitchChat { state: s, channel_name: channel_name@ };
        if state.start_twitch_chat() {
            actions.push(Action::StartTwitchChat { state: s, channel_name });
            assert(action_views(actions@) =~= seq![started]);
        }
        self.states.insert(s, state);
        proof {
            lemma_with_state_wf(a, s, state@);
            assert(self@.states =~= a.twitch_start(c, channel).states);
            assert(self@.connections =~= a.connections);
        }
        actions
    }

    /// The connection `c` asks for a Twitch chat.
    fn handle_twitch_start(&mut self, c: u64, twitch_start: TwitchStartMessage) -> (r: Vec<Action>)
        requires
            old(self).wf(),
            old(self)@.connections.contains_key(c),
        ensures
            final(self).wf(),
            final(self)@ == old(self)@.twitch_start(c, optional_text(twitch_start.channel_name)),
            action_views(r@) == old(self)@.twitch_start_actions(
                c,
                optional_text(twitch_start.channel_name),
            ),
    {
        match &twitch_start.channel_name {
            Some(channel_name) => {
                self.start_twitch_chat(c, channel_name.as_str().to_lowercase())
            },
            None => {
                let actions: Vec<Action> = Vec::new();
                assert(action_views(actions@) =~= seq![]);
                actions
            },
        }
    }

    /// The connection `c` asks for a YouTube chat.
    fn handle_youtube_start(&mut self, c: u64, youtube_start: YouTubeStartMessage) -> (r: Vec<
        Action,
    >)
        requires
            old(self).wf(),
            old(self)@.connections.contains_key(c),
        ensures
            final(self).wf(),
            final(self)@ == old(self)@.youtube_start(c),
            action_views(r@) == old(self)@.youtube_start_actions(c, youtube_start.video_id@),
    {
        let ghost a = self@;
        let mut actions: Vec<Action> = Vec::new();
        assert(action_views(actions@) =~= seq![]);
        let connection = self.connections.get(&c).unwrap();
        if !connection.is_identified() {
            return actions;
        }
        let s: u64 = match connection.state() {
            Some(s) => s,
            None => {
                return actions;
            },
        };
        let mut state = self.states.remove(&s).unwrap();
        if state.start_youtube_chat() {
            actions.push(
                Action::StartYouTubeChat { state: s, video_id: youtube_start.video_id.clone() },
            );
        }
        self.states.insert(s, state);
        proof {
            lemma_with_state_wf(a, s, state@);
            assert(self@.states =~= a.youtube_start(c).states);
            assert(self@.connections =~= a.connections);
            assert(action_views(actions@) =~= a.youtube_start_actions(
                c,
                youtube_start.video_id@,
            ));
        }
        actions
    }

    /// Whether there is a request number left for the history that `message` from the
    /// connection `c` asks for.
    pub fn can_handle_message(&self, c: u64, message: &MessageToAssistant) -> (r: bool)
        requires
            self.wf(),
            self@.connections.contains_key(c),
        ensures
            r == self@.can_handle(c, *message),
    {
        let identify = match message {
            MessageToAssistant::Identify(identify) => identify,
            _ => {
                return true;
            },
        };
        let connection = self.connections.get(&c).unwrap();
        if connection.is_identified() || identify.authentication != connection.hash_password() {
            return true;
        }
        let own: u64 = connection.state().unwrap();
        let s: u64 = match &identify.streamer_id {
            None => own,
            Some(name) => match self.streamers.get(name) {
                None => own,
                Some(Streamer::Disconnected(disconnected)) => disconnected.state,
                Some(Streamer::Connected(previous)) => {
                    self.connections.get(&previous).unwrap().state().unwrap()
                },
            },
        };
        self.states.get(&s).unwrap().has_request_ids(1)
    }

    /// The connection `c` sends a message. The result is what has to be done, in order.
    pub fn handle_message(&mut self, c: u64, message: MessageToAssistant) -> (r: Vec<Action>)
        requires
            old(self).wf(),
            old(self)@.connections.contains_key(c),
            old(self)@.can_handle(c, message),
        ensures
            final(self).wf(),
            final(self)@ == old(self)@.handle(c, message),
            action_views(r@) == old(self)@.handle_actions(c, message),
    {
        match message {
            MessageToAssistant::Identify(identify) => self.handle_identify(c, identify),
            MessageToAssistant::TwitchStart(twitch_start) => {
                self.handle_twitch_start(c, twitch_start)
            },
            MessageToAssistant::YouTubeStart(youtube_start) => {
                self.handle_youtube_start(c, youtube_start)
            },
            MessageToAssistant::Ping(_) => {
                let mut actions: Vec<Action> = Vec::new();
                actions.push(Action::Send(self.connections.get(&c).unwrap().handle_ping()));
                assert(action_views(actions@) =~= old(self)@.handle_actions(c, message));
                actions
            },
            MessageToAssistant::Event(_) => {
                let actions: Vec<Action> = Vec::new();
                assert(action_views(actions@) =~= seq![]);
                actions
            },
            MessageToAssistant::Response(_) => {
                let actions: Vec<Action> = Vec::new();
                assert(action_views(actions@) =~= seq![]);
                actions
            },
        }
    }

    /// The connection `c` ends at the time `now`.
    pub fn disconnect(&mut self, c: u64, now: u128)
        requires
            old(self).wf(),
            old(self)@.connections.contains_key(c),
        ensures
            final(self).wf(),
            final(self)@ == old(self)@.disconnect(c, now),
    {
        let ghost a = self@;
        let connection = self.connections.remove(&c).unwrap();
        if let Some(s) = connection.state() {
            match connection.streamer_id() {
                Some(id) => {
                    let mut state = self.states.remove(&s).unwrap();
                    state.set_writer(None);
                    self.states.insert(s, state);
                    self.streamers.insert(
                        id,
                        Streamer::Disconnected(DisconnectedStreamer::new(s, now)),
                    );
                },
                None => {
                    let _ = self.states.remove(&s);
                },
            }
        }
        proof {
            lemma_disconnect_wf(a, c, now);
            let b = a.disconnect(c, now);
            assert(self@.connections =~= b.connections);
            assert(self@.states =~= b.states);
            assert(self@.streamers =~= b.streamers);
        }
    }

    /// Forgets the streamers that are no longer kept at the time `now`.
    pub fn cleanup(&mut self, now: u128)
        requires
            old(self).wf(),
        ensures
            final(self).wf(),
            final(self)@ == old(self)@.cleanup(now),
    {
        let ghost a = self@;
        let dropped = self.streamers.remove_expired(now);
        let mut i: usize = 0;
        while i < dropped.len()
            invariant
                i <= dropped@.len(),
                self.streamers@ == kept(a.streamers, now),
                self.streamers.wf(),
                self@.connections == a.connections,
                self@.next_connection == a.next_connection,
                self@.next_state == a.next_state,
                forall|s: u64| #[trigger]
                    self@.states.contains_key(s) <==> a.states.contains_key(s)
                        && !dropped@.take(i as int).contains(s),
                forall|s: u64| #[trigger]
                    self@.states.contains_key(s) ==> self@.states[s] == a.states[s],
            decreases dropped@.len() - i,
        {
            let ghost before = self@;
            let _ = self.states.remove(&dropped[i]);
            i += 1;
            proof {
                let gone = dropped@[i - 1];
                let done = dropped@.take(i - 1);
                let next = dropped@.take(i as int);
                assert(next =~= done.push(gone));
                assert(self@.states =~= before.states.remove(gone));
                assert forall|s: u64| #[trigger]
                    self@.states.contains_key(s) <==> a.states.contains_key(s) && !next.contains(
                        s,
                    ) by {
                    assert(before.states.contains_key(s) <==> a.states.contains_key(s)
                        && !done.contains(s));
                    if s == gone {
                        assert(next[i - 1] == s);
                    }
                    if done.contains(s) {
                        let k = choose|k: int| 0 <= k < done.len() && #[trigger] done[k] == s;
                        assert(next[k] == s);
                    }
                    if next.contains(s) && s != gone {
                        let k = choose|k: int| 0 <= k < next.len() && #[trigger] next[k] == s;
                        assert(done[k] == s);
                    }
                }
                assert(self@.connections =~= before.connections);
            }
        }
        proof {
            lemma_cleanup_wf(a, now);
            assert(dropped@.take(i as int) =~= dropped@);
            assert forall|s: u64| #[trigger]
                self@.states.contains_key(s) <==> a.cleanup(now).states.contains_key(s) by {
                assert(dropped@.contains(s) == is_dropped(a.streamers, now, s));
            }
            assert(self@.states =~= a.cleanup(now).states);
        }
    }

    /// The connection `c` receives a message on its socket.
    pub fn handle_socket_message(&mut self, c: u64, message: SocketMessage) -> (r: SocketReply)
        requires
            old(self).wf(),
            old(self)@.connections.contains_key(c),
            message matches SocketMessage::Text(Some(message)) ==> old(self)@.can_handle(
                c,
                message,
            ),
        ensures
            final(self).wf(),
            match message {
                SocketMessage::Text(Some(message)) => {
                    &&& final(self)@ == old(self)@.handle(c, message)
                    &&& r matches SocketReply::Act(actions) && action_views(actions@)
                        == old(self)@.handle_actions(c, message)
                },
                SocketMessage::Text(None) => final(self)@ == old(self)@ && r is End,
                SocketMessage::Ping(data) => {
                    &&& final(self)@ == old(self)@
                    &&& r matches SocketReply::Pong(answer) && answer@ == data@
                },
                SocketMessage::PongFailed => final(self)@ == old(self)@ && r is End,
                SocketMessage::Close => final(self)@ == old(self)@ && r is End,
                SocketMessage::Other => final(self)@ == old(self)@ && r is Ignore,
            },
    {
        match message {
            SocketMessage::Text(Some(message)) => {
                SocketReply::Act(self.handle_message(c, message))
            },
            SocketMessage::Text(None) => SocketReply::End,
            SocketMessage::Ping(data) => SocketReply::Pong(data),
            SocketMessage::PongFailed => SocketReply::End,
            SocketMessage::Close => SocketReply::End,
            SocketMessage::Other => SocketReply::Ignore,
        }
    }

    /// The connection `c` receives a message on its socket. Where the message asks for a
    /// history and there is no request number left for it, nothing happens.
    pub fn receive(&mut self, c: u64, message: SocketMessage) -> (r: Option<SocketReply>)
        requires
            old(self).wf(),
            old(self)@.connections.contains_key(c),
        ensures
            final(self).wf(),
            r is None <==> (message matches SocketMessage::Text(Some(message))
                && !old(self)@.can_handle(c, message)),
            r is None ==> final(self)@ == old(self)@,
            r matches Some(reply) ==> match message {
                SocketMessage::Text(Some(message)) => {
                    &&& final(self)@ == old(self)@.handle(c, message)
                    &&& reply matches SocketReply::Act(actions) && action_views(actions@)
                        == old(self)@.handle_actions(c, message)
                },
                SocketMessage::Text(None) => final(self)@ == old(self)@ && reply is End,
                SocketMessage::Ping(data) => {
                    &&& final(self)@ == old(self)@
                    &&& reply matches SocketReply::Pong(answer) && answer@ == data@
                },
                SocketMessage::PongFailed => final(self)@ == old(self)@ && reply is End,
                SocketMessage::Close => final(self)@ == old(self)@ && reply is End,
                SocketMessage::Other => final(self)@ == old(self)@ && reply is Ignore,
            },
    {
        if let SocketMessage::Text(Some(message)) = &message {
            if !self.can_handle_message(c, message) {
                return None;
            }
        }
        Some(self.handle_socket_message(c, message))
    }

    /// Whether `count` more chat messages for the state `s` can be numbered.
    pub fn has_ids(&self, s: u64, count: usize) -> (r: bool)
        requires
            self.wf(),
        ensures
            r == (self@.states.contains_key(s) ==> {
                &&& self@.states[s].chat_message_id + count <= i32::MAX
                &&& self@.states[s].request_id + count <= i32::MAX
            }),
    {
        match self.states.get(&s) {
            Some(state) => {
                assert(self@.states[s] == state@);
                assert(self@.states.contains_key(s) && self@.state_wf(s));
                state.has_chat_message_ids(count) && state.has_request_ids(count)
            },
            None => true,
        }
    }

    /// Whether the message that the Twitch server sends to the chat that is read for the
    /// state `s` can be taken in: it has a date, and it and its segments can be numbered.
    pub fn can_handle_twitch_message(&self, s: u64, message: &ServerMessage) -> (r: bool)
        requires
            self.wf(),
        ensures
            r == (self@.states.contains_key(s) ==> (message matches ServerMessage::Privmsg(message)
                ==> {
                &&& has_chat_message(*message)
                &&& self@.states[s].chat_message_id < i32::MAX
                &&& self@.states[s].request_id < i32::MAX
            })),
    {
        match message {
            ServerMessage::Privmsg(message) => !self.has_state(s) || (self.has_ids(s, 1)
                && can_create_chat_message(message)),
            ServerMessage::Other => true,
        }
    }

    /// The Twitch server sends a message to the chat that is read for the state `s`.
    pub fn handle_twitch_message(&mut self, s: u64, message: &ServerMessage) -> (r: ChatStep)
        requires
            old(self).wf(),
            old(self)@.states.contains_key(s) ==> (message matches ServerMessage::Privmsg(message)
                ==> {
                &&& has_chat_message(*message)
                &&& old(self)@.states[s].chat_message_id < i32::MAX
                &&& old(self)@.states[s].request_id < i32::MAX
            }),
        ensures
            final(self).wf(),
            !old(self)@.states.contains_key(s) ==> final(self)@ == old(self)@ && r is Ended,
            old(self)@.states.contains_key(s) ==> (r matches ChatStep::Going(outgoing) && {
                let state = old(self)@.states[s];
                match message {
                    ServerMessage::Privmsg(message) => {
                        let numbered = state.next_chat_message();
                        let chat = chat_message(
                            *message,
                            numbered.chat_message_id,
                            message.server_timestamp.text(),
                        );
                        &&& final(self)@ == old(self)@.with_state(s, numbered.append(chat))
                        &&& outgoing_view(outgoing) == numbered.request(false, seq![chat])
                    },
                    ServerMessage::Other => final(self)@ == old(self)@ && outgoing is None,
                }
            }),
    {
        let ghost a = self@;
        match self.states.remove(&s) {
            None => {
                assert(self@.states =~= a.states);
                assert(self@.connections =~= a.connections);
                ChatStep::Ended
            },
            Some(mut state) => {
                assert(a.states.contains_key(s) && a.state_wf(s));
                let outgoing = crate::twitch::handle_message(&mut state, message);
                self.states.insert(s, state);
                proof {
                    lemma_with_state_wf(a, s, state@);
                    assert(self@.states =~= a.with_state(s, state@).states);
                    assert(self@.connections =~= a.connections);
                    assert(a.with_state(s, a.states[s]).states =~= a.states);
                }
                ChatStep::Going(outgoing)
            },
        }
    }

    /// The Twitch chat of the state `s` is no longer read.
    pub fn end_twitch_chat(&mut self, s: u64)
        requires
            old(self).wf(),
        ensures
            final(self).wf(),
            final(self)@ == if old(self)@.states.contains_key(s) {
                old(self)@.with_state(
                    s,
                    StateView { twitch_chat: false, ..old(self)@.states[s] },
                )
            } else {
                old(self)@
            },
    {
        let ghost a = self@;
        match self.states.remove(&s) {
            None => {
                assert(self@.states =~= a.states);
                assert(self@.connections =~= a.connections);
            },
            Some(mut state) => {
                assert(a.states.contains_key(s) && a.state_wf(s));
                state.destroy_twitch_chat();
                self.states.insert(s, state);
                proof {
                    lemma_with_state_wf(a, s, state@);
                    assert(self@.states =~= a.with_state(s, state@).states);
                    assert(self@.connections =~= a.connections);
                }
            },
        }
    }

    /// Whether the answer for the chat that is read for the state `s` can be taken in: all
    /// that it shows can be numbered.
    pub fn can_handle_live_chat(&self, s: u64, live_chat: &GetLiveChat) -> (r: bool)
        requires
            self.wf(),
        ensures
            r == (self@.states.contains_key(s) ==> can_append(self@.states[s], *live_chat)),
    {
        !self.has_state(s) || match count_messages(live_chat) {
            Some(count) => self.has_ids(s, count),
            None => false,
        }
    }

    /// YouTube answers the question for new messages in the chat that is read for the
    /// state `s`. The result is what to send, and how long to wait in milliseconds;
    /// nothing, if there is no such state any more.
    pub fn handle_live_chat(
        &mut self,
        s: u64,
        session: &mut YouTubeSession,
        live_chat: &GetLiveChat,
    ) -> (r: Option<(Vec<Outgoing>, Result<u64, YouTubeError>)>)
        requires
            old(self).wf(),
            old(session)@.wf(),
            old(self)@.states.contains_key(s) ==> can_append(old(self)@.states[s], *live_chat),
        ensures
            final(self).wf(),
            final(session)@.wf(),
            !old(self)@.states.contains_key(s) ==> {
                &&& final(self)@ == old(self)@
                &&& final(session)@ == old(session)@
                &&& r is None
            },
            old(self)@.states.contains_key(s) ==> (r matches Some((outgoing, wait)) && {
                &&& final(self)@.states.contains_key(s)
                &&& final(self)@ == old(self)@.with_state(s, final(self)@.states[s])
                &&& appended(
                    old(self)@.states[s],
                    *live_chat,
                    final(self)@.states[s],
                    outgoing_views(outgoing@),
                )
                &&& match live_chat_continuation(*live_chat) {
                    Some(continuation) => {
                        &&& final(session)@ == SessionView {
                            continuation,
                            delay_ms: next_delay(
                                old(session)@.delay_ms,
                                shown(live_chat_descriptions(*live_chat)).len() as int,
                            ),
                        }
                        &&& wait == Ok::<u64, YouTubeError>(final(session)@.delay_ms as u64)
                    },
                    None => {
                        &&& final(session)@ == old(session)@
                        &&& wait == Err::<u64, YouTubeError>(YouTubeError::NoContinuation)
                    },
                }
            }),
    {
        let ghost a = self@;
        match self.states.remove(&s) {
            None => {
                assert(self@.states =~= a.states);
                assert(self@.connections =~= a.connections);
                None
            },
            Some(mut state) => {
                assert(a.states.contains_key(s) && a.state_wf(s));
                let ghost before = state@;
                let step = youtube_chat_session(session, &mut state, live_chat);
                self.states.insert(s, state);
                proof {
                    lemma_appended(before, *live_chat, state@, outgoing_views(step.0@));
                    lemma_with_state_wf(a, s, state@);
                    assert(self@.states =~= a.with_state(s, state@).states);
                    assert(self@.connections =~= a.connections);
                }
                Some(step)
            },
        }
    }

    /// The YouTube chat of the state `s` is no longer read.
    pub fn end_youtube_chat(&mut self, s: u64)
        requires
            old(self).wf(),
        ensures
            final(self).wf(),
            final(self)@ == if old(self)@.states.contains_key(s) {
                old(self)@.with_state(
                    s,
                    StateView { youtube_chat: false, ..old(self)@.states[s] },
                )
            } else {
                old(self)@
            },
    {
        let ghost a = self@;
        match self.states.remove(&s) {
            None => {
                assert(self@.states =~= a.states);
                assert(self@.connections =~= a.connections);
            },
            Some(mut state) => {
                assert(a.states.contains_key(s) && a.state_wf(s));
                state.destroy_youtube_chat();
                self.states.insert(s, state);
                proof {
                    lemma_with_state_wf(a, s, state@);
                    assert(self@.states =~= a.with_state(s, state@).states);
                    assert(self@.connections =~= a.connections);
                }
            },
        }
    }
}

} // verus!
