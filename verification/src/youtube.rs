//! Chat messages from YouTube.

use vstd::prelude::*;
use vstd::string::StringExecFns;

use crate::protocol::{
    segment_views, ChatMessage, ChatMessageView, ChatPostSegment, MessageToStreamerView, Platform,
};
use crate::segments::{
    in_order, lemma_in_order, numbered, picture_piece, pieces_of, push_segment, push_words,
    word_pieces, Piece,
};
use crate::streamer::{outgoing_view, Outgoing, OutgoingView, StateView, StreamerState};
use crate::text::{chars_of, count_words, law_words_are_words, texts};
use crate::time::Timestamp;

verus! {

#[derive(Debug)]
pub struct Thumbnail {
    pub url: String,
}

#[derive(Debug)]
pub struct Image {
    pub thumbnails: Vec<Thumbnail>,
}

#[derive(Debug)]
pub struct Emoji {
    pub image: Image,
}

/// A part of a message: text, an emoji, or both.
#[derive(Debug)]
pub struct Run {
    pub text: Option<String>,
    pub emoji: Option<Emoji>,
}

#[derive(Debug)]
pub struct Message {
    pub runs: Vec<Run>,
}

#[derive(Debug)]
pub struct Author {
    pub simple_text: String,
}

#[derive(Debug)]
pub struct Amount {
    pub simple_text: String,
}

#[derive(Debug)]
pub struct BadgeIcon {
    pub icon_type: Option<String>,
}

#[derive(Debug)]
pub struct AuthorBadgeRenderer {
    pub icon: Option<BadgeIcon>,
}

#[derive(Debug)]
pub struct AuthorBadge {
    pub live_chat_author_badge_renderer: Option<AuthorBadgeRenderer>,
}

/// What somebody said in the chat.
#[derive(Debug)]
pub struct ChatDescription {
    pub author_name: Author,
    pub message: Option<Message>,
    pub purchase_amount_text: Option<Amount>,
    pub header_subtext: Option<Message>,
    pub author_badges: Option<Vec<AuthorBadge>>,
}

#[derive(Debug)]
pub struct AddChatItemActionItem {
    pub live_chat_text_message_renderer: Option<ChatDescription>,
    pub live_chat_paid_message_renderer: Option<ChatDescription>,
    pub live_chat_paid_sticker_renderer: Option<ChatDescription>,
    pub live_chat_membership_item_renderer: Option<ChatDescription>,
}

#[derive(Debug)]
pub struct AddChatItemAction {
    pub item: AddChatItemActionItem,
}

#[derive(Debug)]
pub struct Action {
    pub add_chat_item_action: Option<AddChatItemAction>,
}

#[derive(Debug)]
pub struct InvalidationContinuationData {
    pub continuation: String,
}

#[derive(Debug)]
pub struct Continuations {
    pub invalidation_continuation_data: Option<InvalidationContinuationData>,
}

#[derive(Debug)]
pub struct LiveChatContinuation {
    pub continuations: Vec<Continuations>,
    pub actions: Option<Vec<Action>>,
}

#[derive(Debug)]
pub struct ContinuationContents {
    pub live_chat_continuation: LiveChatContinuation,
}

/// What YouTube answers when asked for new chat messages.
#[derive(Debug)]
pub struct GetLiveChat {
    pub continuation_contents: ContinuationContents,
}

/// The words of a text, if there is one.
pub open spec fn text_pieces(text: Option<String>) -> Seq<Piece> {
    match text {
        Some(text) => word_pieces(text@),
        None => seq![],
    }
}

/// What a run shows: the words of its text, then its emoji by the first thumbnail.
pub open spec fn run_pieces(run: Run) -> Seq<Piece> {
    match run.emoji {
        Some(emoji) if emoji.image.thumbnails@.len() > 0 => text_pieces(run.text).push(
            picture_piece(emoji.image.thumbnails@[0].url@),
        ),
        _ => text_pieces(run.text),
    }
}

/// What the runs show one after the other.
pub open spec fn runs_pieces(runs: Seq<Run>) -> Seq<Piece>
    decreases runs.len(),
{
    if runs.len() == 0 {
        seq![]
    } else {
        runs_pieces(runs.drop_last()) + run_pieces(runs.last())
    }
}

/// What a message shows, if there is one.
pub open spec fn message_pieces(message: Option<Message>) -> Seq<Piece> {
    match message {
        Some(message) => runs_pieces(message.runs@),
        None => seq![],
    }
}

/// What somebody said: the header, then the message.
pub open spec fn description_pieces(description: ChatDescription) -> Seq<Piece> {
    message_pieces(description.header_subtext) + message_pieces(description.message)
}

proof fn lemma_runs_grow(runs: Seq<Run>, n: int)
    requires
        0 <= n <= runs.len(),
    ensures
        runs_pieces(runs.take(n)).len() <= runs_pieces(runs).len(),
    decreases runs.len(),
{
    if n < runs.len() {
        lemma_runs_grow(runs.drop_last(), n);
        assert(runs.drop_last().take(n) =~= runs.take(n));
    } else {
        assert(runs.take(n) =~= runs);
    }
}

/// Appends the segments that show `message`, if there is one.
fn push_message(segments: &mut Vec<ChatPostSegment>, message: &Option<Message>)
    requires
        in_order(old(segments)@),
        old(segments)@.len() + message_pieces(*message).len() <= i32::MAX,
    ensures
        in_order(final(segments)@),
        pieces_of(final(segments)@) == pieces_of(old(segments)@) + message_pieces(*message),
{
    match message {
        None => {
            assert(pieces_of(segments@) + message_pieces(*message) =~= pieces_of(segments@));
        },
        Some(message) => {
            let runs = &message.runs;
            let mut i: usize = 0;
            assert(pieces_of(segments@) + runs_pieces(runs@.take(0)) =~= pieces_of(segments@));
            while i < runs.len()
                invariant
                    i <= runs@.len(),
                    in_order(segments@),
                    old(segments)@.len() + runs_pieces(runs@).len() <= i32::MAX,
                    pieces_of(segments@) == pieces_of(old(segments)@) + runs_pieces(
                        runs@.take(i as int),
                    ),
                decreases runs@.len() - i,
            {
                let run = &runs[i];
                let ghost before = pieces_of(segments@);
                proof {
                    lemma_runs_grow(runs@, i + 1);
                    assert(runs@.take(i + 1).drop_last() =~= runs@.take(i as int));
                    assert(runs@.take(i + 1).last() == *run);
                    assert(before.len() == segments@.len());
                    assert(before.len() + run_pieces(*run).len() <= i32::MAX);
                }
                if let Some(text) = &run.text {
                    let chars = chars_of(text.as_str());
                    assert(text@.subrange(0, text@.len() as int) =~= text@);
                    push_words(segments, chars.as_slice(), 0, chars.len());
                }
                assert(pieces_of(segments@) =~= before + text_pieces(run.text));
                assert(pieces_of(segments@).len() == segments@.len());
                if let Some(emoji) = &run.emoji {
                    if emoji.image.thumbnails.len() > 0 {
                        let url = emoji.image.thumbnails[0].url.clone();
                        push_segment(segments, None, Some(url));
                    }
                }
                i += 1;
                assert(pieces_of(segments@) =~= before + run_pieces(*run));
                assert(pieces_of(segments@) =~= pieces_of(old(segments)@) + runs_pieces(
                    runs@.take(i as int),
                ));
            }
            assert(runs@.take(i as int) =~= runs@);
        },
    }
}

/// The segments that show what somebody said.
pub fn create_youtube_segments(chat_description: &ChatDescription) -> (r: Vec<ChatPostSegment>)
    requires
        description_pieces(*chat_description).len() <= i32::MAX,
    ensures
        segment_views(r@) == numbered(description_pieces(*chat_description)),
{
    let mut segments: Vec<ChatPostSegment> = Vec::new();
    push_message(&mut segments, &chat_description.header_subtext);
    assert(pieces_of(segments@) =~= message_pieces(chat_description.header_subtext));
    assert(pieces_of(segments@).len() == segments@.len());
    push_message(&mut segments, &chat_description.message);
    proof {
        lemma_in_order(segments@);
    }
    segments
}

/// The type of a badge's icon, if it has one.
pub open spec fn icon_type(badge: AuthorBadge) -> Option<Seq<char>> {
    match badge.live_chat_author_badge_renderer {
        Some(AuthorBadgeRenderer { icon: Some(BadgeIcon { icon_type: Some(icon) }) }) => Some(
            icon@,
        ),
        _ => None,
    }
}

/// Whether the author has a badge with the icon `name`.
pub open spec fn has_badge(description: ChatDescription, name: Seq<char>) -> bool {
    match description.author_badges {
        Some(badges) => exists|i: int|
            0 <= i < badges@.len() && icon_type(#[trigger] badges@[i]) == Some(name),
        None => false,
    }
}

/// Whether the author has a badge with the icon `name`.
fn find_badge(chat_description: &ChatDescription, name: &str) -> (r: bool)
    ensures
        r == has_badge(*chat_description, name@),
{
    let wanted = name.to_string();
    if let Some(badges) = &chat_description.author_badges {
        let mut i: usize = 0;
        while i < badges.len()
            invariant
                i <= badges@.len(),
                chat_description.author_badges == Some(*badges),
                wanted@ == name@,
                forall|j: int| 0 <= j < i ==> icon_type(#[trigger] badges@[j]) != Some(name@),
            decreases badges@.len() - i,
        {
            if let Some(renderer) = &badges[i].live_chat_author_badge_renderer {
                if let Some(icon) = &renderer.icon {
                    if let Some(found) = &icon.icon_type {
                        if *found == wanted {
                            assert(icon_type(badges@[i as int]) == Some(name@));
                            return true;
                        }
                    }
                }
            }
            i += 1;
        }
    }
    false
}

/// Whether the author owns the channel.
pub fn is_youtube_owner(chat_description: &ChatDescription) -> (r: bool)
    ensures
        r == has_badge(*chat_description, "OWNER"@),
{
    find_badge(chat_description, "OWNER")
}

/// Whether the author moderates the chat.
pub fn is_youtube_moderator(chat_description: &ChatDescription) -> (r: bool)
    ensures
        r == has_badge(*chat_description, "MODERATOR"@),
{
    find_badge(chat_description, "MODERATOR")
}

/// Whether the author is a member of the channel.
pub fn is_youtube_member(chat_description: &ChatDescription) -> (r: bool)
    ensures
        r == has_badge(*chat_description, "MEMBER"@),
{
    find_badge(chat_description, "MEMBER")
}

/// The description as a sequence, empty if there is none.
pub open spec fn present(description: Option<ChatDescription>) -> Seq<ChatDescription> {
    match description {
        Some(description) => seq![description],
        None => seq![],
    }
}

/// What an action adds to the chat: a text message, a paid message, a paid sticker
/// and a membership item, as far as they are there.
pub open spec fn action_descriptions(action: Action) -> Seq<ChatDescription> {
    match action.add_chat_item_action {
        Some(add) => present(add.item.live_chat_text_message_renderer) + present(
            add.item.live_chat_paid_message_renderer,
        ) + present(add.item.live_chat_paid_sticker_renderer) + present(
            add.item.live_chat_membership_item_renderer,
        ),
        None => seq![],
    }
}

/// What the actions add to the chat one after the other.
pub open spec fn actions_descriptions(actions: Seq<Action>) -> Seq<ChatDescription>
    decreases actions.len(),
{
    if actions.len() == 0 {
        seq![]
    } else {
        actions_descriptions(actions.drop_last()) + action_descriptions(actions.last())
    }
}

/// What is new in the chat.
pub open spec fn live_chat_descriptions(live_chat: GetLiveChat) -> Seq<ChatDescription> {
    match live_chat.continuation_contents.live_chat_continuation.actions {
        Some(actions) => actions_descriptions(actions@),
        None => seq![],
    }
}

/// Those of `descriptions` that show anything.
pub open spec fn shown(descriptions: Seq<ChatDescription>) -> Seq<ChatDescription> {
    descriptions.filter(|d: ChatDescription| description_pieces(d).len() > 0)
}

/// Whether the segments of each description can be numbered.
pub open spec fn have_segments(descriptions: Seq<ChatDescription>) -> bool {
    forall|i: int|
        0 <= i < descriptions.len() ==> description_pieces(#[trigger] descriptions[i]).len()
            <= i32::MAX
}

/// The chat message with the number `id` that a description becomes; `timestamp` is the
/// text of the time at which it comes in.
pub open spec fn chat_message(
    description: ChatDescription,
    id: int,
    timestamp: Seq<char>,
) -> ChatMessageView {
    ChatMessageView {
        id,
        platform: Platform::YouTube {  },
        message_id: None,
        display_name: Some(description.author_name.simple_text@),
        user: Some(description.author_name.simple_text@),
        user_id: None,
        user_color: None,
        user_badges: seq![],
        segments: numbered(description_pieces(description)),
        timestamp,
        is_action: false,
        is_moderator: has_badge(description, "MODERATOR"@),
        is_subscriber: has_badge(description, "MEMBER"@),
        is_owner: has_badge(description, "OWNER"@),
        bits: None,
    }
}

/// The state once a description has come in at the time `timestamp`.
pub open spec fn append_description(
    state: StateView,
    description: ChatDescription,
    timestamp: Timestamp,
) -> StateView {
    let numbered = state.next_chat_message();
    numbered.append(chat_message(description, numbered.chat_message_id, timestamp.text()))
}

/// The request that sends the chat message of a description that comes in at the
/// time `timestamp`, if there is a connection to send it to.
pub open spec fn description_request(
    state: StateView,
    description: ChatDescription,
    timestamp: Timestamp,
) -> Option<OutgoingView> {
    let numbered = state.next_chat_message();
    numbered.request(
        false,
        seq![chat_message(description, numbered.chat_message_id, timestamp.text())],
    )
}

/// The state once `descriptions` have come in, each at the time in `timestamps`.
pub open spec fn append_descriptions(
    state: StateView,
    descriptions: Seq<ChatDescription>,
    timestamps: Seq<Timestamp>,
) -> StateView
    decreases descriptions.len(),
{
    if descriptions.len() == 0 {
        state
    } else {
        append_description(
            append_descriptions(state, descriptions.drop_last(), timestamps.drop_last()),
            descriptions.last(),
            timestamps.last(),
        )
    }
}

/// The requests that send the chat messages of `descriptions`, which come in at the
/// times in `timestamps`.
pub open spec fn description_requests(
    state: StateView,
    descriptions: Seq<ChatDescription>,
    timestamps: Seq<Timestamp>,
) -> Seq<OutgoingView>
    decreases descriptions.len(),
{
    if descriptions.len() == 0 {
        seq![]
    } else {
        let before = append_descriptions(
            state,
            descriptions.drop_last(),
            timestamps.drop_last(),
        );
        let requests = description_requests(
            state,
            descriptions.drop_last(),
            timestamps.drop_last(),
        );
        match description_request(before, descriptions.last(), timestamps.last()) {
            Some(request) => requests.push(request),
            None => requests,
        }
    }
}

/// The contents of messages on their way.
pub open spec fn outgoing_views(outgoing: Seq<Outgoing>) -> Seq<OutgoingView> {
    outgoing.map_values(|o: Outgoing| o@)
}

/// The chat message with the number `id` that a description becomes, as `segments` show
/// it; `timestamp` is the text of the time at which it comes in.
pub fn create_chat_message(
    chat_description: &ChatDescription,
    segments: Vec<ChatPostSegment>,
    id: i32,
    timestamp: String,
) -> (r: ChatMessage)
    requires
        segment_views(segments@) == numbered(description_pieces(*chat_description)),
    ensures
        r@ == chat_message(*chat_description, id as int, timestamp@),
{
    let display_name = chat_description.author_name.simple_text.clone();
    let user_badges: Vec<String> = Vec::new();
    assert(texts(user_badges@) =~= seq![]);
    ChatMessage {
        id,
        platform: Platform::YouTube {  },
        message_id: None,
        display_name: Some(display_name.clone()),
        user: Some(display_name),
        user_id: None,
        user_color: None,
        user_badges,
        segments,
        timestamp,
        is_action: false,
        is_moderator: is_youtube_moderator(chat_description),
        is_subscriber: is_youtube_member(chat_description),
        is_owner: is_youtube_owner(chat_description),
        bits: None,
    }
}

/// Stores what somebody said at the time `timestamp`, as `segments` show it, and
/// gives the request that sends it to the streamer.
pub fn append_youtube_message(
    state: &mut StreamerState,
    chat_description: &ChatDescription,
    segments: Vec<ChatPostSegment>,
    timestamp: Timestamp,
) -> (r: Option<Outgoing>)
    requires
        old(state)@.wf(),
        timestamp.wf(),
        segment_views(segments@) == numbered(description_pieces(*chat_description)),
        old(state)@.chat_message_id < i32::MAX,
        old(state)@.request_id < i32::MAX,
    ensures
        final(state)@.wf(),
        final(state)@ == append_description(old(state)@, *chat_description, timestamp),
        outgoing_view(r) == description_request(old(state)@, *chat_description, timestamp),
{
    let id: i32 = state.next_chat_message_id();
    let timestamp = timestamp.to_rfc3339();
    let message = create_chat_message(chat_description, segments, id, timestamp);
    state.append_chat_message(message)
}

/// The descriptions behind the references.
pub open spec fn referred(descriptions: Seq<&ChatDescription>) -> Seq<ChatDescription> {
    descriptions.map_values(|d: &ChatDescription| *d)
}

/// Appends a reference to the description, if there is one.
fn push_present<'a>(
    descriptions: &mut Vec<&'a ChatDescription>,
    description: &'a Option<ChatDescription>,
)
    ensures
        referred(final(descriptions)@) == referred(old(descriptions)@) + present(*description),
{
    if let Some(description) = description {
        descriptions.push(description);
    }
    assert(referred(descriptions@) =~= referred(old(descriptions)@) + present(*description));
}

/// References to what is new in the chat.
fn collect_descriptions(live_chat: &GetLiveChat) -> (r: Vec<&ChatDescription>)
    ensures
        referred(r@) == live_chat_descriptions(*live_chat),
{
    let mut descriptions: Vec<&ChatDescription> = Vec::new();
    assert(referred(descriptions@) =~= seq![]);
    if let Some(actions) = &live_chat.continuation_contents.live_chat_continuation.actions {
        let mut i: usize = 0;
        while i < actions.len()
            invariant
                i <= actions@.len(),
                referred(descriptions@) == actions_descriptions(actions@.take(i as int)),
            decreases actions@.len() - i,
        {
            let action = &actions[i];
            let ghost before = referred(descriptions@);
            if let Some(add) = &action.add_chat_item_action {
                let item = &add.item;
                push_present(&mut descriptions, &item.live_chat_text_message_renderer);
                push_present(&mut descriptions, &item.live_chat_paid_message_renderer);
                push_present(&mut descriptions, &item.live_chat_paid_sticker_renderer);
                push_present(&mut descriptions, &item.live_chat_membership_item_renderer);
            }
            assert(referred(descriptions@) =~= before + action_descriptions(*action));
            i += 1;
            assert(actions@.take(i as int).drop_last() =~= actions@.take(i - 1));
            assert(actions@.take(i as int).last() == *action);
        }
        assert(actions@.take(i as int) =~= actions@);
    }
    descriptions
}

/// Whether `timestamps` are times of the clock, which shows no leap seconds, one for each
/// of `count` descriptions that came in.
pub open spec fn are_times(timestamps: Seq<Timestamp>, count: nat) -> bool {
    &&& timestamps.len() == count
    &&& forall|i: int|
        0 <= i < count ==> (#[trigger] timestamps[i]).wf() && timestamps[i].nanos < 1_000_000_000
}

/// Whether all that is new in the chat can be numbered, behind what `state` holds.
pub open spec fn can_append(state: StateView, live_chat: GetLiveChat) -> bool {
    let descriptions = live_chat_descriptions(live_chat);
    &&& have_segments(descriptions)
    &&& state.chat_message_id + shown(descriptions).len() <= i32::MAX
    &&& state.request_id + shown(descriptions).len() <= i32::MAX
}

/// Whether `state` has become `new_state`, and `outgoing` is sent, as what is new
/// in the chat came in at some times.
pub open spec fn appended(
    state: StateView,
    live_chat: GetLiveChat,
    new_state: StateView,
    outgoing: Seq<OutgoingView>,
) -> bool {
    let descriptions = shown(live_chat_descriptions(live_chat));
    exists|timestamps: Seq<Timestamp>|
        {
            &&& are_times(timestamps, descriptions.len())
            &&& new_state == #[trigger] append_descriptions(state, descriptions, timestamps)
            &&& outgoing == description_requests(state, descriptions, timestamps)
        }
}

proof fn lemma_append_descriptions(
    state: StateView,
    descriptions: Seq<ChatDescription>,
    timestamps: Seq<Timestamp>,
)
    ensures
        ({
            let r = append_descriptions(state, descriptions, timestamps);
            &&& r.chat_message_id == state.chat_message_id + descriptions.len()
            &&& r.request_id == state.request_id + descriptions.len()
            &&& r.writer == state.writer
            &&& r.twitch_chat == state.twitch_chat
            &&& r.youtube_chat == state.youtube_chat
        }),
    decreases descriptions.len(),
{
    if descriptions.len() > 0 {
        lemma_append_descriptions(state, descriptions.drop_last(), timestamps.drop_last());
    }
}

/// What is new in the chat takes a chat message number and a request number for
/// each message that shows anything, and changes nothing but these and the history.
pub proof fn lemma_appended(
    state: StateView,
    live_chat: GetLiveChat,
    new_state: StateView,
    outgoing: Seq<OutgoingView>,
)
    requires
        appended(state, live_chat, new_state, outgoing),
    ensures
        ({
            let count = shown(live_chat_descriptions(live_chat)).len();
            new_state == StateView {
                chat_message_id: state.chat_message_id + count,
                request_id: state.request_id + count,
                chat_messages: new_state.chat_messages,
                ..state
            }
        }),
{
    let descriptions = shown(live_chat_descriptions(live_chat));
    let timestamps = choose|timestamps: Seq<Timestamp>|
        {
            &&& are_times(timestamps, descriptions.len())
            &&& new_state == #[trigger] append_descriptions(state, descriptions, timestamps)
            &&& outgoing == description_requests(state, descriptions, timestamps)
        };
    lemma_append_descriptions(state, descriptions, timestamps);
}

/// While the streamer is connected, each description is sent in a request of its own, in
/// order, and both the requests and the chat messages are numbered one after the other.
/// While it is away, nothing is sent.
pub proof fn law_descriptions_are_sent_in_order(
    state: StateView,
    descriptions: Seq<ChatDescription>,
    timestamps: Seq<Timestamp>,
)
    requires
        timestamps.len() == descriptions.len(),
    ensures
        ({
            let requests = description_requests(state, descriptions, timestamps);
            match state.writer {
                Some(to) => {
                    &&& requests.len() == descriptions.len()
                    &&& forall|i: int|
                        0 <= i < descriptions.len() ==> #[trigger] requests[i] == OutgoingView {
                            to,
                            message: MessageToStreamerView::ChatMessages {
                                id: state.request_id + 1 + i,
                                history: false,
                                messages: seq![
                                    chat_message(
                                        descriptions[i],
                                        state.chat_message_id + 1 + i,
                                        timestamps[i].text(),
                                    ),
                                ],
                            },
                        }
                },
                None => requests.len() == 0,
            }
        }),
    decreases descriptions.len(),
{
    if descriptions.len() > 0 {
        let front = descriptions.drop_last();
        let times = timestamps.drop_last();
        law_descriptions_are_sent_in_order(state, front, times);
        lemma_append_descriptions(state, front, times);
    }
}

proof fn lemma_shown_grows(descriptions: Seq<ChatDescription>, n: int)
    requires
        0 <= n <= descriptions.len(),
    ensures
        shown(descriptions.take(n)).len() <= shown(descriptions).len(),
{
    let keep = |d: ChatDescription| description_pieces(d).len() > 0;
    Seq::filter_distributes_over_add(descriptions.take(n), descriptions.skip(n), keep);
    assert(descriptions.take(n) + descriptions.skip(n) =~= descriptions);
}

/// Stores what is new in the chat, apart from what shows nothing, and gives the
/// requests that send it to the streamer, and how many messages there were.
pub fn append_live_chat(state: &mut StreamerState, live_chat: &GetLiveChat) -> (r: (
    Vec<Outgoing>,
    u64,
))
    requires
        old(state)@.wf(),
        can_append(old(state)@, *live_chat),
    ensures
        final(state)@.wf(),
        appended(old(state)@, *live_chat, final(state)@, outgoing_views(r.0@)),
        r.1 == shown(live_chat_descriptions(*live_chat)).len(),
{
    let descriptions = collect_descriptions(live_chat);
    let ghost all = live_chat_descriptions(*live_chat);
    let ghost mut timestamps: Seq<Timestamp> = seq![];
    let mut outgoing: Vec<Outgoing> = Vec::new();
    let mut message_count: u64 = 0;
    let mut i: usize = 0;
    proof {
        reveal(Seq::filter);
        assert(all.take(0) =~= seq![]);
        assert(shown(all.take(0)) =~= seq![]);
        assert(outgoing_views(outgoing@) =~= seq![]);
    }
    while i < descriptions.len()
        invariant
            i <= all.len(),
            referred(descriptions@) == all,
            have_segments(all),
            old(state)@.chat_message_id + shown(all).len() <= i32::MAX,
            old(state)@.request_id + shown(all).len() <= i32::MAX,
            state@.wf(),
            are_times(timestamps, shown(all.take(i as int)).len()),
            state@ == append_descriptions(old(state)@, shown(all.take(i as int)), timestamps),
            outgoing_views(outgoing@) == description_requests(
                old(state)@,
                shown(all.take(i as int)),
                timestamps,
            ),
            message_count == shown(all.take(i as int)).len(),
        decreases all.len() - i,
    {
        let chat_description = descriptions[i];
        let ghost before = shown(all.take(i as int));
        assert(all[i as int] == *chat_description);
        let segments = create_youtube_segments(chat_description);
        proof {
            reveal(Seq::filter);
            assert(all.take(i + 1).drop_last() =~= all.take(i as int));
            assert(all.take(i + 1).last() == *chat_description);
            assert(segment_views(segments@).len() == segments@.len());
            lemma_append_descriptions(old(state)@, before, timestamps);
            lemma_shown_grows(all, i + 1);
        }
        if !segments.is_empty() {
            let timestamp = Timestamp::now();
            assert(shown(all.take(i + 1)) == before.push(*chat_description));
            let request = append_youtube_message(state, chat_description, segments, timestamp);
            let ghost sent = outgoing_views(outgoing@);
            let ghost times = timestamps;
            proof {
                timestamps = times.push(timestamp);
                assert(timestamps.drop_last() =~= times);
                assert(before.push(*chat_description).drop_last() =~= before);
            }
            if let Some(request) = request {
                outgoing.push(request);
                assert(outgoing_views(outgoing@) =~= sent.push(request@));
            }
            message_count += 1;
        }
        i += 1;
    }
    proof {
        assert(all.take(i as int) =~= all);
        assert(append_descriptions(old(state)@, shown(all), timestamps) == state@);
    }
    (outgoing, message_count)
}

/// How the assistant names itself to YouTube.
pub const YOUTUBE_USER_AGENT: &'static str =
    "Mozilla/5.0 (Macintosh; Intel Mac OS X 10.15; rv:124.0) Gecko/20100101 Firefox/124.0";

/// The cookie that stands for the visitor's consent.
pub const YOUTUBE_CONSENT_COOKIE: &'static str = "CONSENT=YES+1";

/// Where new chat messages are asked for.
pub const YOUTUBE_GET_LIVE_CHAT_URL: &'static str =
    "https://www.youtube.com/youtubei/v1/live_chat/get_live_chat";

/// The shortest time between two questions for new chat messages, in milliseconds.
pub const YOUTUBE_MIN_POLL_DELAY_MS: u64 = 200;

/// The longest time between two questions for new chat messages, in milliseconds.
pub const YOUTUBE_MAX_POLL_DELAY_MS: u64 = 3000;

/// How long to wait before a failed chat is tried again, in seconds.
pub const YOUTUBE_RECONNECT_DELAY_SECS: u64 = 5;

/// What can go wrong while a YouTube chat is read.
#[derive(Debug)]
pub enum YouTubeError {
    /// The chat page was answered with this status.
    PageStatus(String),
    /// The chat page does not say where the chat starts.
    NoInitialContinuation,
    /// The question for new messages was answered with this status.
    ChatStatus(String),
    /// The answer does not say where the chat goes on.
    NoContinuation,
}

/// The text of an error.
pub open spec fn error_text(error: YouTubeError) -> Seq<char> {
    match error {
        YouTubeError::PageStatus(status) => "YouTube live chat page returned status "@ + status@,
        YouTubeError::NoInitialContinuation =>
            "No continuation token found in YouTube live chat page"@,
        YouTubeError::ChatStatus(status) => "YouTube get_live_chat returned status "@ + status@,
        YouTubeError::NoContinuation => "No continuation token in YouTube response"@,
    }
}

impl YouTubeError {
    /// The text of the error.
    pub fn message(&self) -> (r: String)
        ensures
            r@ == error_text(*self),
    {
        match self {
            YouTubeError::PageStatus(status) => {
                let mut r = "YouTube live chat page returned status ".to_string();
                r.append(status.as_str());
                r
            },
            YouTubeError::NoInitialContinuation => {
                "No continuation token found in YouTube live chat page".to_string()
            },
            YouTubeError::ChatStatus(status) => {
                let mut r = "YouTube get_live_chat returned status ".to_string();
                r.append(status.as_str());
                r
            },
            YouTubeError::NoContinuation => {
                "No continuation token in YouTube response".to_string()
            },
        }
    }
}

/// Whether an HTTP status code stands for success.
pub open spec fn is_success(code: u16) -> bool {
    200 <= code < 300
}

/// Where the chat page of a video is.
pub fn live_chat_page_url(video_id: &str) -> (r: String)
    ensures
        r@ == "https://www.youtube.com/live_chat?is_popout=1&v="@ + video_id@,
{
    let mut url = "https://www.youtube.com/live_chat?is_popout=1&v=".to_string();
    url.append(video_id);
    url
}

/// Whether the chat page was answered with success; `status` is the text of the code.
pub fn check_page_status(code: u16, status: &str) -> (r: Result<(), YouTubeError>)
    ensures
        match r {
            Ok(()) => is_success(code),
            Err(YouTubeError::PageStatus(text)) => !is_success(code) && text@ == status@,
            Err(_) => false,
        },
{
    if 200 <= code && code < 300 {
        Ok(())
    } else {
        Err(YouTubeError::PageStatus(status.to_string()))
    }
}

/// Whether the question for new messages was answered with success; `status` is the
/// text of the code.
pub fn check_chat_status(code: u16, status: &str) -> (r: Result<(), YouTubeError>)
    ensures
        match r {
            Ok(()) => is_success(code),
            Err(YouTubeError::ChatStatus(text)) => !is_success(code) && text@ == status@,
            Err(_) => false,
        },
{
    if 200 <= code && code < 300 {
        Ok(())
    } else {
        Err(YouTubeError::ChatStatus(status.to_string()))
    }
}

/// How the chat page says where the chat starts, as a regular expression.
pub const CONTINUATION_PATTERN: &'static str = "\"continuation\":\"([^\"]+)\"";

/// What stands before a token on the chat page.
pub open spec fn token_prefix() -> Seq<char> {
    "\"continuation\":\""@
}

/// Whether there is a token of `len` characters at `at`, behind the prefix: one or
/// more characters other than quotes, and then a quote.
pub open spec fn is_token(body: Seq<char>, at: int, len: int) -> bool {
    let prefix = token_prefix();
    &&& prefix.len() <= at
    &&& 0 < len
    &&& at + len < body.len()
    &&& body.subrange(at - prefix.len(), at) == prefix
    &&& forall|i: int| at <= i < at + len ==> #[trigger] body[i] != '"'
    &&& body[at + len] == '"'
}

/// Whether there is a token of `len` characters at `at`, and none before it.
pub open spec fn is_first_token(body: Seq<char>, at: int, len: int) -> bool {
    &&& is_token(body, at, len)
    &&& forall|i: int, n: int| i < at ==> !#[trigger] is_token(body, i, n)
}

/// `Regex::captures` of `regex` is documented to find the leftmost match of the
/// pattern, and the first group of this pattern is the token: one or more
/// characters other than quotes between the prefix and a quote. The pattern is
/// valid, so `Regex::new` takes it.
#[verifier::external_body]
fn capture_token(pattern: &str, body: &str) -> (r: Option<String>)
    requires
        pattern@ == CONTINUATION_PATTERN@,
    ensures
        match r {
            Some(token) => exists|at: int, len: int|
                #[trigger] is_first_token(body@, at, len) && token@ == body@.subrange(
                    at,
                    at + len,
                ),
            None => forall|at: int, len: int| !#[trigger] is_token(body@, at, len),
        },
{
    match regex::Regex::new(pattern).unwrap().captures(body) {
        Some(captures) => Some(captures[1].to_string()),
        None => None,
    }
}

/// Where the chat starts, as the chat page says: the first token on it.
pub fn find_initial_continuation(body: &str) -> (r: Result<String, YouTubeError>)
    ensures
        match r {
            Ok(token) => exists|at: int, len: int|
                #[trigger] is_first_token(body@, at, len) && token@ == body@.subrange(
                    at,
                    at + len,
                ),
            Err(error) => error is NoInitialContinuation && forall|at: int, len: int|
                !#[trigger] is_token(body@, at, len),
        },
{
    match capture_token(CONTINUATION_PATTERN, body) {
        Some(token) => Ok(token),
        None => Err(YouTubeError::NoInitialContinuation),
    }
}

/// A page has at most one first token.
pub proof fn law_first_token_is_unique(
    body: Seq<char>,
    at1: int,
    len1: int,
    at2: int,
    len2: int,
)
    requires
        is_first_token(body, at1, len1),
        is_first_token(body, at2, len2),
    ensures
        at1 == at2,
        len1 == len2,
{
    assert(!is_token(body, at1, len1) || at1 >= at2);
    assert(!is_token(body, at2, len2) || at2 >= at1);
    if len1 < len2 {
        assert(body[at1 + len1] != '"');
    }
    if len2 < len1 {
        assert(body[at2 + len2] != '"');
    }
}

/// A question for the chat messages since `continuation`.
#[derive(Debug)]
pub struct LiveChatRequest {
    pub client_name: String,
    pub client_version: String,
    pub continuation: String,
}

/// The question for the chat messages since `continuation`.
pub fn live_chat_request(continuation: &str) -> (r: LiveChatRequest)
    ensures
        r.client_name@ == "WEB"@,
        r.client_version@ == "2.20210128.02.00"@,
        r.continuation@ == continuation@,
{
    LiveChatRequest {
        client_name: "WEB".to_string(),
        client_version: "2.20210128.02.00".to_string(),
        continuation: continuation.to_string(),
    }
}

/// Where the chat goes on: the first continuation that says so.
pub open spec fn next_continuation(continuations: Seq<Continuations>) -> Option<Seq<char>>
    decreases continuations.len(),
{
    if continuations.len() == 0 {
        None
    } else {
        match continuations[0].invalidation_continuation_data {
            Some(data) => Some(data.continuation@),
            None => next_continuation(continuations.skip(1)),
        }
    }
}

/// Where the chat goes on after this answer.
pub open spec fn live_chat_continuation(live_chat: GetLiveChat) -> Option<Seq<char>> {
    next_continuation(
        live_chat.continuation_contents.live_chat_continuation.continuations@,
    )
}

/// Where the chat goes on after this answer.
fn find_continuation(live_chat: &GetLiveChat) -> (r: Option<String>)
    ensures
        match r {
            Some(continuation) => live_chat_continuation(*live_chat) == Some(continuation@),
            None => live_chat_continuation(*live_chat) is None,
        },
{
    let continuations =
        &live_chat.continuation_contents.live_chat_continuation.continuations;
    let mut i: usize = 0;
    assert(continuations@.skip(0) =~= continuations@);
    while i < continuations.len()
        invariant
            i <= continuations@.len(),
            *continuations
                == live_chat.continuation_contents.live_chat_continuation.continuations,
            next_continuation(continuations@.skip(i as int)) == next_continuation(
                continuations@,
            ),
        decreases continuations@.len() - i,
    {
        assert(continuations@.skip(i as int)[0] == continuations@[i as int]);
        assert(continuations@.skip(i as int).skip(1) =~= continuations@.skip(i + 1));
        if let Some(data) = &continuations[i].invalidation_continuation_data {
            return Some(data.continuation.clone());
        }
        i += 1;
    }
    None
}

/// How long to wait after an answer with `message_count` messages, if the wait
/// before it was `delay_ms`: five times that for each message, and never less than
/// the shortest wait or more than the longest. Without messages, the longest.
pub open spec fn next_delay(delay_ms: int, message_count: int) -> int {
    let wanted = if message_count > 0 {
        delay_ms * 5 / message_count
    } else {
        YOUTUBE_MAX_POLL_DELAY_MS as int
    };
    if wanted < YOUTUBE_MIN_POLL_DELAY_MS {
        YOUTUBE_MIN_POLL_DELAY_MS as int
    } else if wanted > YOUTUBE_MAX_POLL_DELAY_MS {
        YOUTUBE_MAX_POLL_DELAY_MS as int
    } else {
        wanted
    }
}

/// A YouTube chat that is being read: where it goes on, and how long the last wait was.
pub struct YouTubeSession {
    continuation: String,
    delay_ms: u64,
}

/// The content of a session.
#[verifier::ext_equal]
pub struct SessionView {
    pub continuation: Seq<char>,
    pub delay_ms: int,
}

impl View for YouTubeSession {
    type V = SessionView;

    closed spec fn view(&self) -> SessionView {
        SessionView { continuation: self.continuation@, delay_ms: self.delay_ms as int }
    }
}

impl SessionView {
    /// The wait lies between the shortest and the longest.
    pub open spec fn wf(self) -> bool {
        YOUTUBE_MIN_POLL_DELAY_MS <= self.delay_ms <= YOUTUBE_MAX_POLL_DELAY_MS
    }
}

impl YouTubeSession {
    /// A session that starts at `continuation`.
    pub fn new(continuation: String) -> (r: YouTubeSession)
        ensures
            r@ == (SessionView {
                continuation: continuation@,
                delay_ms: YOUTUBE_MAX_POLL_DELAY_MS as int,
            }),
            r@.wf(),
    {
        YouTubeSession { continuation, delay_ms: YOUTUBE_MAX_POLL_DELAY_MS }
    }

    /// The question for what is new in the chat.
    pub fn request(&self) -> (r: LiveChatRequest)
        ensures
            r.client_name@ == "WEB"@,
            r.client_version@ == "2.20210128.02.00"@,
            r.continuation@ == self@.continuation,
    {
        live_chat_request(self.continuation.as_str())
    }

    /// Goes on after an answer with `message_count` messages, and gives the time to
    /// wait in milliseconds.
    pub fn advance(&mut self, live_chat: &GetLiveChat, message_count: u64) -> (r: Result<
        u64,
        YouTubeError,
    >)
        requires
            old(self)@.wf(),
        ensures
            final(self)@.wf(),
            match live_chat_continuation(*live_chat) {
                Some(continuation) => {
                    &&& final(self)@ == SessionView {
                        continuation,
                        delay_ms: next_delay(old(self)@.delay_ms, message_count as int),
                    }
                    &&& r == Ok::<u64, YouTubeError>(final(self)@.delay_ms as u64)
                },
                None => {
                    &&& final(self)@ == old(self)@
                    &&& r == Err::<u64, YouTubeError>(YouTubeError::NoContinuation)
                },
            },
    {
        match find_continuation(live_chat) {
            None => Err(YouTubeError::NoContinuation),
            Some(continuation) => {
                self.continuation = continuation;
                let wanted: u64 = if message_count > 0 {
                    self.delay_ms * 5 / message_count
                } else {
                    YOUTUBE_MAX_POLL_DELAY_MS
                };
                self.delay_ms = if wanted < YOUTUBE_MIN_POLL_DELAY_MS {
                    YOUTUBE_MIN_POLL_DELAY_MS
                } else if wanted > YOUTUBE_MAX_POLL_DELAY_MS {
                    YOUTUBE_MAX_POLL_DELAY_MS
                } else {
                    wanted
                };
                Ok(self.delay_ms)
            },
        }
    }
}

/// Takes in an answer: stores what is new in the chat, and goes on. The result is
/// the requests that send the messages, and the time to wait in milliseconds.
pub fn youtube_chat_session(
    session: &mut YouTubeSession,
    state: &mut StreamerState,
    live_chat: &GetLiveChat,
) -> (r: (Vec<Outgoing>, Result<u64, YouTubeError>))
    requires
        old(session)@.wf(),
        old(state)@.wf(),
        can_append(old(state)@, *live_chat),
    ensures
        final(session)@.wf(),
        final(state)@.wf(),
        appended(old(state)@, *live_chat, final(state)@, outgoing_views(r.0@)),
        match live_chat_continuation(*live_chat) {
            Some(continuation) => {
                &&& final(session)@ == SessionView {
                    continuation,
                    delay_ms: next_delay(
                        old(session)@.delay_ms,
                        shown(live_chat_descriptions(*live_chat)).len() as int,
                    ),
                }
                &&& r.1 == Ok::<u64, YouTubeError>(final(session)@.delay_ms as u64)
            },
            None => {
                &&& final(session)@ == old(session)@
                &&& r.1 == Err::<u64, YouTubeError>(YouTubeError::NoContinuation)
            },
        },
{
    let (outgoing, message_count) = append_live_chat(state, live_chat);
    let next = session.advance(live_chat, message_count);
    (outgoing, next)
}

/// How long to wait in seconds before a chat is read again that is no longer read; nothing,
/// if it is not read again. It is, if it `failed` and there is still a state to read it for.
pub fn after_youtube_session(failed: bool, has_state: bool) -> (r: Option<u64>)
    ensures
        r == if failed && has_state {
            Some(YOUTUBE_RECONNECT_DELAY_SECS)
        } else {
            None
        },
{
    if failed && has_state {
        Some(YOUTUBE_RECONNECT_DELAY_SECS)
    } else {
        None
    }
}

/// The wait always lies between the shortest and the longest, and the more messages
/// an answer brings, the shorter it is.
pub proof fn law_busy_chats_are_asked_more_often(delay_ms: int, few: int, many: int)
    requires
        0 <= delay_ms,
        0 <= few <= many,
    ensures
        YOUTUBE_MIN_POLL_DELAY_MS <= next_delay(delay_ms, many) <= next_delay(delay_ms, few)
            <= YOUTUBE_MAX_POLL_DELAY_MS,
{
    if few > 0 {
        let total = delay_ms * 5;
        assert(total / many <= total / few) by (nonlinear_arith)
            requires
                0 <= total,
                0 < few <= many,
        ;
    }
}

/// How many characters the texts of `runs` have, and one more for each run.
pub open spec fn runs_size(runs: Seq<Run>) -> nat
    decreases runs.len(),
{
    if runs.len() == 0 {
        0
    } else {
        let text = match runs.last().text {
            Some(text) => text@.len(),
            None => 0,
        };
        runs_size(runs.drop_last()) + text + 1
    }
}

/// Runs show no more pieces than their texts have characters, and one more for each run.
pub proof fn law_few_pieces(runs: Seq<Run>)
    ensures
        runs_pieces(runs).len() <= runs_size(runs),
    decreases runs.len(),
{
    if runs.len() > 0 {
        law_few_pieces(runs.drop_last());
        if let Some(text) = runs.last().text {
            law_words_are_words(text@);
        }
    }
}

/// How many characters the texts of a message have, and one more for each run.
pub open spec fn message_size(message: Option<Message>) -> nat {
    match message {
        Some(message) => runs_size(message.runs@),
        None => 0,
    }
}

/// How many characters the texts of a description have, and one more for each run.
pub open spec fn description_size(description: ChatDescription) -> nat {
    message_size(description.header_subtext) + message_size(description.message)
}

/// What is left of `room` behind the pieces of a message; nothing, if they do not fit into it.
fn room_behind(message: &Option<Message>, room: usize) -> (r: Option<usize>)
    ensures
        match r {
            Some(left) => message_pieces(*message).len() + left == room,
            None => message_pieces(*message).len() > room,
        },
{
    let mut left: usize = room;
    if let Some(found) = message {
        let runs = &found.runs;
        let mut i: usize = 0;
        while i < runs.len()
            invariant
                i <= runs@.len(),
                message_pieces(*message) == runs_pieces(runs@),
                runs_pieces(runs@.take(i as int)).len() + left == room,
            decreases runs@.len() - i,
        {
            let run = &runs[i];
            proof {
                assert(runs@.take(i + 1).drop_last() =~= runs@.take(i as int));
                assert(runs@.take(i + 1).last() == *run);
                lemma_runs_grow(runs@, i + 1);
            }
            if let Some(text) = &run.text {
                let chars = chars_of(text.as_str());
                assert(text@.subrange(0, text@.len() as int) =~= text@);
                let count: usize = count_words(chars.as_slice(), 0, chars.len());
                assert(text_pieces(run.text).len() == count);
                if count > left {
                    return None;
                }
                left -= count;
            }
            if let Some(emoji) = &run.emoji {
                if emoji.image.thumbnails.len() > 0 {
                    if left == 0 {
                        return None;
                    }
                    left -= 1;
                }
            }
            i += 1;
        }
        assert(runs@.take(i as int) =~= runs@);
    }
    Some(left)
}

/// How many messages there are in what is new in the chat, apart from what shows nothing;
/// nothing, if the segments of one cannot be numbered.
pub fn count_messages(live_chat: &GetLiveChat) -> (r: Option<usize>)
    ensures
        match r {
            Some(count) => {
                &&& have_segments(live_chat_descriptions(*live_chat))
                &&& count == shown(live_chat_descriptions(*live_chat)).len()
            },
            None => !have_segments(live_chat_descriptions(*live_chat)),
        },
{
    let descriptions = collect_descriptions(live_chat);
    let ghost all = live_chat_descriptions(*live_chat);
    let mut count: usize = 0;
    let mut i: usize = 0;
    proof {
        reveal(Seq::filter);
        assert(shown(all.take(0)) =~= seq![]);
    }
    while i < descriptions.len()
        invariant
            i <= all.len(),
            all == live_chat_descriptions(*live_chat),
            referred(descriptions@) == all,
            forall|j: int| 0 <= j < i ==> description_pieces(#[trigger] all[j]).len() <= i32::MAX,
            count <= i,
            count == shown(all.take(i as int)).len(),
        decreases all.len() - i,
    {
        let description = descriptions[i];
        assert(all[i as int] == *description);
        proof {
            reveal(Seq::filter);
            assert(all.take(i + 1).drop_last() =~= all.take(i as int));
            assert(all.take(i + 1).last() == *description);
        }
        let left = match room_behind(&description.header_subtext, i32::MAX as usize) {
            Some(left) => room_behind(&description.message, left),
            None => None,
        };
        match left {
            Some(left) => {
                if left < i32::MAX as usize {
                    count += 1;
                }
            },
            None => {
                assert(description_pieces(all[i as int]).len() > i32::MAX);
                return None;
            },
        }
        i += 1;
    }
    assert(all.take(i as int) =~= all);
    Some(count)
}

/// A description shows no more pieces than its texts have characters, and one more for
/// each run.
pub proof fn law_few_description_pieces(description: ChatDescription)
    ensures
        description_pieces(description).len() <= description_size(description),
{
    if let Some(header) = description.header_subtext {
        law_few_pieces(header.runs@);
    }
    if let Some(message) = description.message {
        law_few_pieces(message.runs@);
    }
}

/// No more messages are shown than there are descriptions.
pub proof fn law_no_more_shown_than_there_are(descriptions: Seq<ChatDescription>)
    ensures
        shown(descriptions).len() <= descriptions.len(),
{
    descriptions.lemma_filter_len(|d: ChatDescription| description_pieces(d).len() > 0);
}

/// An action adds at most four messages to the chat.
pub proof fn law_four_messages_per_action(actions: Seq<Action>)
    ensures
        shown(actions_descriptions(actions)).len() <= 4 * actions.len(),
    decreases actions.len(),
{
    let keep = |d: ChatDescription| description_pieces(d).len() > 0;
    if actions.len() > 0 {
        let before = actions_descriptions(actions.drop_last());
        let added = action_descriptions(actions.last());
        law_four_messages_per_action(actions.drop_last());
        Seq::filter_distributes_over_add(before, added, keep);
        added.lemma_filter_len(keep);
    } else {
        actions_descriptions(actions).lemma_filter_len(keep);
    }
}

} // verus!
