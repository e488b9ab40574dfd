//! What the assistant is made of, and what happens to it, as mathematics.

use vstd::prelude::*;

use crate::protocol::{
    optional_text, IdentifiedResult, MessageToAssistant, MessageToStreamerView,
};
use crate::streamer::{hardcoded, ConnectionView, Outgoing, OutgoingView, StateView};
use crate::streamers::{is_dropped, is_kept, kept, DisconnectedStreamer, Streamer};
use crate::text::lowercase_text;

verus! {

/// What has to be done outside the assistant.
#[derive(Debug)]
pub enum Action {
    /// Send a message.
    Send(Outgoing),
    /// Close a connection.
    Close(u64),
    /// Read a Twitch channel for a streamer's state.
    StartTwitchChat { state: u64, channel_name: String },
    /// Read the chat of a YouTube video for a streamer's state.
    StartYouTubeChat { state: u64, video_id: String },
}

/// The content of an action.
#[verifier::ext_equal]
pub enum ActionView {
    Send(OutgoingView),
    Close(u64),
    StartTwitchChat { state: u64, channel_name: Seq<char> },
    StartYouTubeChat { state: u64, video_id: Seq<char> },
}

impl View for Action {
    type V = ActionView;

    open spec fn view(&self) -> ActionView {
        match self {
            Action::Send(outgoing) => ActionView::Send(outgoing@),
            Action::Close(connection) => ActionView::Close(*connection),
            Action::StartTwitchChat { state, channel_name } => ActionView::StartTwitchChat {
                state: *state,
                channel_name: channel_name@,
            },
            Action::StartYouTubeChat { state, video_id } => ActionView::StartYouTubeChat {
                state: *state,
                video_id: video_id@,
            },
        }
    }
}

/// The contents of actions.
pub open spec fn action_views(actions: Seq<Action>) -> Seq<ActionView> {
    actions.map_values(|a: Action| a@)
}

/// The content of the assistant.
#[verifier::ext_equal]
pub struct AssistantView {
    pub connections: Map<u64, ConnectionView>,
    pub states: Map<u64, StateView>,
    pub streamers: Map<Seq<char>, Streamer>,
    pub next_connection: int,
    pub next_state: int,
}

impl AssistantView {
    /// An assistant that nobody has connected to.
    pub open spec fn initial() -> AssistantView {
        AssistantView {
            connections: Map::empty(),
            states: Map::empty(),
            streamers: Map::empty(),
            next_connection: 0,
            next_state: 0,
        }
    }

    /// The connection `c` has that number. It has a state, which is written to it, until
    /// another connection with the same name takes the state over. While a connection
    /// with a name has a state, it is the streamer's connection.
    pub open spec fn connection_wf(self, c: u64) -> bool {
        let connection = self.connections[c];
        &&& c < self.next_connection
        &&& connection.writer == c
        &&& !connection.identified ==> connection.streamer_id is None
        &&& connection.streamer_id is None ==> connection.state is Some
        &&& connection.state matches Some(s) ==> {
            &&& self.states.contains_key(s)
            &&& self.states[s].writer == Some(c)
            &&& connection.streamer_id matches Some(id) ==> {
                &&& self.streamers.contains_key(id)
                &&& self.streamers[id] == Streamer::Connected(c)
            }
        }
    }

    /// The state `s` is in order, and belongs to the connection that it is written to,
    /// or to a streamer that has disconnected.
    pub open spec fn state_wf(self, s: u64) -> bool {
        &&& s < self.next_state
        &&& self.states[s].wf()
        &&& match self.states[s].writer {
            Some(c) => self.connections.contains_key(c) && self.connections[c].state == Some(s),
            None => exists|id: Seq<char>| #[trigger]
                self.streamers.contains_key(id) && self.left(id, s),
        }
    }

    /// Whether the streamer with the name `id` has disconnected and left the state `s`.
    pub open spec fn left(self, id: Seq<char>, s: u64) -> bool {
        self.streamers[id] matches Streamer::Disconnected(d) && d.state == s
    }

    /// A streamer that is connected has a connection with its name and a state; one that
    /// has disconnected has left a state.
    pub open spec fn streamer_wf(self, id: Seq<char>) -> bool {
        match self.streamers[id] {
            Streamer::Connected(c) => {
                &&& self.connections.contains_key(c)
                &&& self.connections[c].streamer_id == Some(id)
                &&& self.connections[c].state is Some
            },
            Streamer::Disconnected(d) => {
                &&& self.states.contains_key(d.state)
                &&& self.states[d.state].writer is None
            },
        }
    }

    /// What always holds of the assistant. No two streamers have left the same state.
    pub open spec fn wf(self) -> bool {
        &&& forall|c: u64| #[trigger] self.connections.contains_key(c) ==> self.connection_wf(c)
        &&& forall|s: u64| #[trigger] self.states.contains_key(s) ==> self.state_wf(s)
        &&& forall|id: Seq<char>| #[trigger]
            self.streamers.contains_key(id) ==> self.streamer_wf(id)
        &&& forall|id1: Seq<char>, id2: Seq<char>, s: u64|
            self.streamers.contains_key(id1) && self.streamers.contains_key(id2) && #[trigger]
                self.left(id1, s) && #[trigger] self.left(id2, s) ==> id1 == id2
        &&& 0 <= self.next_connection
        &&& 0 <= self.next_state
    }

    /// The state that the connection `c` has.
    pub open spec fn state_of(self, c: u64) -> u64 {
        self.connections[c].state->0
    }

    /// The assistant once somebody has connected.
    pub open spec fn connect(
        self,
        password: Seq<char>,
        peer_address: Seq<char>,
        challenge: Seq<char>,
        salt: Seq<char>,
    ) -> AssistantView {
        let c = self.next_connection as u64;
        let s = self.next_state as u64;
        AssistantView {
            connections: self.connections.insert(
                c,
                ConnectionView::initial(password, peer_address, c, s, challenge, salt),
            ),
            states: self.states.insert(s, StateView::initial(c)),
            streamers: self.streamers,
            next_connection: self.next_connection + 1,
            next_state: self.next_state + 1,
        }
    }

    /// The connection that the streamer with the name `id` already has.
    pub open spec fn previous(self, id: Option<Seq<char>>) -> Option<u64> {
        match id {
            Some(id) if self.streamers.contains_key(id) => match self.streamers[id] {
                Streamer::Connected(c) => Some(c),
                Streamer::Disconnected(_) => None,
            },
            _ => None,
        }
    }

    /// The state that the connection `c` gets when it names itself `id`: the one that the
    /// streamer already has, or the connection's own.
    pub open spec fn found(self, c: u64, id: Option<Seq<char>>) -> u64 {
        match id {
            Some(id) if self.streamers.contains_key(id) => match self.streamers[id] {
                Streamer::Connected(previous) => self.state_of(previous),
                Streamer::Disconnected(d) => d.state,
            },
            _ => self.state_of(c),
        }
    }

    /// The assistant once the connection `c` has proved that it knows the password and
    /// named itself `id`: it gets the streamer's state, from the streamer's previous
    /// connection if there is one, and is sent chat messages.
    pub open spec fn accept(self, c: u64, id: Option<Seq<char>>) -> AssistantView {
        let own = self.state_of(c);
        let s = self.found(c, id);
        let connections = match self.previous(id) {
            Some(previous) => self.connections.insert(
                previous,
                ConnectionView { state: None, ..self.connections[previous] },
            ),
            None => self.connections,
        };
        let states = if s == own {
            self.states
        } else {
            self.states.remove(own)
        };
        AssistantView {
            connections: connections.insert(
                c,
                ConnectionView {
                    identified: true,
                    streamer_id: id,
                    state: Some(s),
                    ..self.connections[c]
                },
            ),
            states: states.insert(
                s,
                StateView { writer: Some(c), ..self.states[s].next_request() },
            ),
            streamers: match id {
                Some(id) => self.streamers.insert(id, Streamer::Connected(c)),
                None => self.streamers,
            },
            ..self
        }
    }

    /// What has to be done when the connection `c` is accepted: the previous connection is
    /// closed, and the new one is told and sent the history, or the hardcoded messages if
    /// there is none.
    pub open spec fn accept_actions(self, c: u64, id: Option<Seq<char>>) -> Seq<ActionView> {
        let state = self.states[self.found(c, id)];
        let closed = match self.previous(id) {
            Some(previous) => seq![ActionView::Close(previous)],
            None => seq![],
        };
        closed + seq![
            ActionView::Send(
                self.connections[c].identified_answer(IdentifiedResult::Accepted {  }),
            ),
            ActionView::Send(
                OutgoingView {
                    to: c,
                    message: MessageToStreamerView::ChatMessages {
                        id: state.request_id + 1,
                        history: true,
                        messages: if state.chat_messages.len() == 0 {
                            hardcoded()
                        } else {
                            state.chat_messages
                        },
                    },
                },
            ),
        ]
    }

    /// What an identify message with this authentication is answered.
    pub open spec fn identify_result(self, c: u64, authentication: Seq<char>) -> IdentifiedResult {
        let connection = self.connections[c];
        connection.identify_result(authentication, connection.authentication())
    }

    /// Whether an identify message with this authentication is accepted.
    pub open spec fn accepts(self, c: u64, authentication: Seq<char>) -> bool {
        self.identify_result(c, authentication) == IdentifiedResult::Accepted {  }
    }

    /// The assistant once the connection `c` has sent an identify message.
    pub open spec fn identify(
        self,
        c: u64,
        authentication: Seq<char>,
        id: Option<Seq<char>>,
    ) -> AssistantView {
        if self.accepts(c, authentication) {
            self.accept(c, id)
        } else {
            self
        }
    }

    /// What has to be done when the connection `c` has sent an identify message.
    pub open spec fn identify_actions(
        self,
        c: u64,
        authentication: Seq<char>,
        id: Option<Seq<char>>,
    ) -> Seq<ActionView> {
        if self.accepts(c, authentication) {
            self.accept_actions(c, id)
        } else {
            seq![
                ActionView::Send(
                    self.connections[c].identified_answer(
                        self.identify_result(c, authentication),
                    ),
                ),
            ]
        }
    }

    /// The state that the connection `c` may start chats for.
    pub open spec fn chat_state(self, c: u64) -> Option<u64> {
        if self.connections[c].identified {
            self.connections[c].state
        } else {
            None
        }
    }

    /// Whether the connection `c` starts a Twitch chat when it asks for one.
    pub open spec fn starts_twitch_chat(self, c: u64, channel_name: Option<Seq<char>>) -> bool {
        channel_name is Some && (self.chat_state(c) matches Some(s)
            && !self.states[s].twitch_chat)
    }

    /// The assistant once the connection `c` has asked for a Twitch chat.
    pub open spec fn twitch_start(
        self,
        c: u64,
        channel_name: Option<Seq<char>>,
    ) -> AssistantView {
        if self.starts_twitch_chat(c, channel_name) {
            let s = self.state_of(c);
            AssistantView {
                states: self.states.insert(s, StateView { twitch_chat: true, ..self.states[s] }),
                ..self
            }
        } else {
            self
        }
    }

    /// What has to be done when the connection `c` has asked for a Twitch chat.
    pub open spec fn twitch_start_actions(
        self,
        c: u64,
        channel_name: Option<Seq<char>>,
    ) -> Seq<ActionView> {
        if self.starts_twitch_chat(c, channel_name) {
            seq![
                ActionView::StartTwitchChat {
                    state: self.state_of(c),
                    channel_name: lowercase_text(channel_name->0),
                },
            ]
        } else {
            seq![]
        }
    }

    /// Whether the connection `c` starts a YouTube chat when it asks for one.
    pub open spec fn starts_youtube_chat(self, c: u64) -> bool {
        self.chat_state(c) matches Some(s) && !self.states[s].youtube_chat
    }

    /// The assistant once the connection `c` has asked for a YouTube chat.
    pub open spec fn youtube_start(self, c: u64) -> AssistantView {
        if self.starts_youtube_chat(c) {
            let s = self.state_of(c);
            AssistantView {
                states: self.states.insert(s, StateView { youtube_chat: true, ..self.states[s] }),
                ..self
            }
        } else {
            self
        }
    }

    /// What has to be done when the connection `c` has asked for a YouTube chat.
    pub open spec fn youtube_start_actions(
        self,
        c: u64,
        video_id: Seq<char>,
    ) -> Seq<ActionView> {
        if self.starts_youtube_chat(c) {
            seq![ActionView::StartYouTubeChat { state: self.state_of(c), video_id }]
        } else {
            seq![]
        }
    }

    /// The assistant once the connection `c` has sent `message`.
    pub open spec fn handle(self, c: u64, message: MessageToAssistant) -> AssistantView {
        match message {
            MessageToAssistant::Identify(identify) => self.identify(
                c,
                identify.authentication@,
                optional_text(identify.streamer_id),
            ),
            MessageToAssistant::TwitchStart(start) => self.twitch_start(
                c,
                optional_text(start.channel_name),
            ),
            MessageToAssistant::YouTubeStart(_) => self.youtube_start(c),
            MessageToAssistant::Ping(_) => self,
            MessageToAssistant::Event(_) => self,
            MessageToAssistant::Response(_) => self,
        }
    }

    /// What has to be done when the connection `c` has sent `message`.
    pub open spec fn handle_actions(self, c: u64, message: MessageToAssistant) -> Seq<
        ActionView,
    > {
        match message {
            MessageToAssistant::Identify(identify) => self.identify_actions(
                c,
                identify.authentication@,
                optional_text(identify.streamer_id),
            ),
            MessageToAssistant::TwitchStart(start) => self.twitch_start_actions(
                c,
                optional_text(start.channel_name),
            ),
            MessageToAssistant::YouTubeStart(start) => self.youtube_start_actions(
                c,
                start.video_id@,
            ),
            MessageToAssistant::Ping(_) => seq![ActionView::Send(self.connections[c].pong())],
            MessageToAssistant::Event(_) => seq![],
            MessageToAssistant::Response(_) => seq![],
        }
    }

    /// Whether there is a request number left for the history that `message` asks for.
    pub open spec fn can_handle(self, c: u64, message: MessageToAssistant) -> bool {
        message matches MessageToAssistant::Identify(identify) ==> self.accepts(
            c,
            identify.authentication@,
        ) ==> self.states[self.found(c, optional_text(identify.streamer_id))].request_id
            < i32::MAX
    }

    /// The assistant once the connection `c` has ended at the time `now`. A streamer that
    /// has named itself leaves its state; any other state ends with the connection.
    pub open spec fn disconnect(self, c: u64, now: u128) -> AssistantView {
        let connection = self.connections[c];
        let connections = self.connections.remove(c);
        match connection.state {
            None => AssistantView { connections, ..self },
            Some(s) => match connection.streamer_id {
                Some(id) => AssistantView {
                    connections,
                    states: self.states.insert(s, StateView { writer: None, ..self.states[s] }),
                    streamers: self.streamers.insert(
                        id,
                        Streamer::Disconnected(DisconnectedStreamer { state: s, time: now }),
                    ),
                    ..self
                },
                None => AssistantView { connections, states: self.states.remove(s), ..self },
            },
        }
    }

    /// The assistant once the streamers that are no longer kept at the time `now` are
    /// forgotten, and their states with them.
    pub open spec fn cleanup(self, now: u128) -> AssistantView {
        AssistantView {
            states: Map::new(
                |s: u64| self.states.contains_key(s) && !is_dropped(self.streamers, now, s),
                |s: u64| self.states[s],
            ),
            streamers: kept(self.streamers, now),
            ..self
        }
    }

    /// The assistant with `state` in place of the state `s`.
    pub open spec fn with_state(self, s: u64, state: StateView) -> AssistantView {
        AssistantView { states: self.states.insert(s, state), ..self }
    }
}

pub proof fn lemma_connect_wf(
    a: AssistantView,
    password: Seq<char>,
    peer_address: Seq<char>,
    challenge: Seq<char>,
    salt: Seq<char>,
)
    requires
        a.wf(),
        a.next_connection < u64::MAX,
        a.next_state < u64::MAX,
    ensures
        a.connect(password, peer_address, challenge, salt).wf(),
{
    let b = a.connect(password, peer_address, challenge, salt);
    let c = a.next_connection as u64;
    let s = a.next_state as u64;
    assert(!a.connections.contains_key(c));
    assert(!a.states.contains_key(s));
    assert forall|x: u64| #[trigger] b.states.contains_key(x) implies b.state_wf(x) by {
        if x != s {
            assert(a.states.contains_key(x));
            if a.states[x].writer is None {
                let id = choose|id: Seq<char>| #[trigger]
                    a.streamers.contains_key(id) && a.left(id, x);
                assert(b.streamers.contains_key(id) && b.left(id, x));
            }
        }
    }
    assert forall|id1: Seq<char>, id2: Seq<char>, x: u64|
        b.streamers.contains_key(id1) && b.streamers.contains_key(id2) && #[trigger] b.left(
            id1,
            x,
        ) && #[trigger] b.left(id2, x) implies id1 == id2 by {
        assert(a.left(id1, x) && a.left(id2, x));
    }
}

pub proof fn lemma_accept_wf(a: AssistantView, c: u64, id: Option<Seq<char>>)
    requires
        a.wf(),
        a.connections.contains_key(c),
        !a.connections[c].identified,
        a.states[a.found(c, id)].request_id < i32::MAX,
    ensures
        a.accept(c, id).wf(),
        a.states.contains_key(a.found(c, id)),
        a.states.contains_key(a.state_of(c)),
        a.previous(id) matches Some(previous) ==> {
            &&& previous != c
            &&& a.connections.contains_key(previous)
            &&& a.connections[previous].state is Some
        },
        a.connections[c].state is Some,
{
    let b = a.accept(c, id);
    let own = a.state_of(c);
    let s = a.found(c, id);
    assert(a.connections[c].streamer_id is None);
    assert(a.states.contains_key(own));
    assert(a.states[own].writer == Some(c));
    assert(a.states.contains_key(s));
    assert forall|x: u64| #[trigger] b.connections.contains_key(x) implies b.connection_wf(x) by {
        assert(a.connections.contains_key(x));
    }
    assert forall|x: u64| #[trigger] b.states.contains_key(x) implies b.state_wf(x) by {
        assert(a.states.contains_key(x));
        if x != s && a.states[x].writer is None {
            let name = choose|name: Seq<char>| #[trigger]
                a.streamers.contains_key(name) && a.left(name, x);
            assert(b.streamers.contains_key(name));
            assert(b.left(name, x));
        }
    }
    assert forall|name: Seq<char>| #[trigger] b.streamers.contains_key(name) implies b.streamer_wf(name) by {
        if id != Some(name) {
            assert(a.streamers.contains_key(name));
            if let Streamer::Disconnected(d) = a.streamers[name] {
                assert(a.left(name, d.state));
                if d.state == s {
                    assert(a.left(id->0, s));
                }
            }
        }
    }
    assert forall|id1: Seq<char>, id2: Seq<char>, x: u64|
        b.streamers.contains_key(id1) && b.streamers.contains_key(id2) && #[trigger] b.left(
            id1,
            x,
        ) && #[trigger] b.left(id2, x) implies id1 == id2 by {
        assert(a.left(id1, x) && a.left(id2, x));
    }
}

pub proof fn lemma_disconnect_wf(a: AssistantView, c: u64, now: u128)
    requires
        a.wf(),
        a.connections.contains_key(c),
    ensures
        a.disconnect(c, now).wf(),
{
    let b = a.disconnect(c, now);
    let connection = a.connections[c];
    assert forall|x: u64| #[trigger] b.connections.contains_key(x) implies b.connection_wf(x) by {
        assert(a.connections.contains_key(x));
    }
    assert forall|x: u64| #[trigger] b.states.contains_key(x) implies b.state_wf(x) by {
        assert(a.states.contains_key(x));
        if connection.state == Some(x) && connection.streamer_id is Some {
            let name = connection.streamer_id->0;
            assert(b.streamers.contains_key(name) && b.left(name, x));
        } else if a.states[x].writer is None {
            let name = choose|name: Seq<char>| #[trigger]
                a.streamers.contains_key(name) && a.left(name, x);
            assert(b.streamers.contains_key(name) && b.left(name, x));
        }
    }
    assert forall|name: Seq<char>| #[trigger] b.streamers.contains_key(name) implies b.streamer_wf(name) by {
        if connection.state is None || connection.streamer_id != Some(name) {
            assert(a.streamers.contains_key(name));
        }
    }
    assert forall|id1: Seq<char>, id2: Seq<char>, x: u64|
        b.streamers.contains_key(id1) && b.streamers.contains_key(id2) && #[trigger] b.left(
            id1,
            x,
        ) && #[trigger] b.left(id2, x) implies id1 == id2 by {
        if b.streamers[id1] == a.streamers[id1] && b.streamers[id2] == a.streamers[id2] {
            assert(a.streamers.contains_key(id1) && a.streamers.contains_key(id2));
            assert(a.left(id1, x) && a.left(id2, x));
        }
    }
}

pub proof fn lemma_cleanup_wf(a: AssistantView, now: u128)
    requires
        a.wf(),
    ensures
        a.cleanup(now).wf(),
{
    let b = a.cleanup(now);
    assert forall|x: u64| #[trigger] b.connections.contains_key(x) implies b.connection_wf(x) by {
        assert(a.connections.contains_key(x));
        if let Some(y) = a.connections[x].state {
            if is_dropped(a.streamers, now, y) {
                let name = choose|name: Seq<char>| #[trigger]
                    a.streamers.contains_key(name) && (a.streamers[name] matches
                        Streamer::Disconnected(d) && d.state == y);
                assert(a.states[y].writer is None);
            }
        }
    }
    assert forall|x: u64| #[trigger] b.states.contains_key(x) implies b.state_wf(x) by {
        assert(a.states.contains_key(x));
        if a.states[x].writer is None {
            let name = choose|name: Seq<char>| #[trigger]
                a.streamers.contains_key(name) && a.left(name, x);
            assert(b.streamers.contains_key(name) && b.left(name, x));
        }
    }
    assert forall|name: Seq<char>| #[trigger] b.streamers.contains_key(name) implies b.streamer_wf(name) by {
        assert(a.streamers.contains_key(name));
        if let Streamer::Disconnected(d) = a.streamers[name] {
            assert(a.left(name, d.state));
            if is_dropped(a.streamers, now, d.state) {
                let other = choose|other: Seq<char>| #[trigger]
                    a.streamers.contains_key(other) && !is_kept(a.streamers[other], now) && (
                    a.streamers[other] matches Streamer::Disconnected(e) && e.state == d.state);
                assert(a.left(other, d.state));
                assert(other == name);
            }
        }
    }
    assert forall|id1: Seq<char>, id2: Seq<char>, x: u64|
        b.streamers.contains_key(id1) && b.streamers.contains_key(id2) && #[trigger] b.left(
            id1,
            x,
        ) && #[trigger] b.left(id2, x) implies id1 == id2 by {
        assert(a.streamers.contains_key(id1) && a.streamers.contains_key(id2));
        assert(a.left(id1, x) && a.left(id2, x));
    }
}

pub proof fn lemma_with_state_wf(a: AssistantView, s: u64, state: StateView)
    requires
        a.wf(),
        a.states.contains_key(s),
        state.wf(),
        state.writer == a.states[s].writer,
    ensures
        a.with_state(s, state).wf(),
{
    let b = a.with_state(s, state);
    assert forall|x: u64| #[trigger] b.states.contains_key(x) implies b.state_wf(x) by {
        assert(a.states.contains_key(x));
        if a.states[x].writer is None {
            let name = choose|name: Seq<char>| #[trigger]
                a.streamers.contains_key(name) && a.left(name, x);
            assert(b.streamers.contains_key(name) && b.left(name, x));
        }
    }
    assert forall|id1: Seq<char>, id2: Seq<char>, x: u64|
        b.streamers.contains_key(id1) && b.streamers.contains_key(id2) && #[trigger] b.left(
            id1,
            x,
        ) && #[trigger] b.left(id2, x) implies id1 == id2 by {
        assert(a.left(id1, x) && a.left(id2, x));
    }
}

} // verus!
