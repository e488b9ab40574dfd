//! What holds of chat messages from YouTube.

use vstd::prelude::*;

use crate::protocol::{MessageToStreamerView, Platform};
use crate::segments::{law_words_become_pieces, numbered, Piece};
use crate::streamer::{OutgoingView, StateView};
use crate::text::words;
use crate::time::{rfc3339_text, Timestamp};
use crate::youtube::{
    action_descriptions, actions_descriptions, append_descriptions, appended, are_times,
    can_append, chat_message, description_pieces, description_requests, error_text, has_badge,
    is_success, law_descriptions_are_sent_in_order, live_chat_continuation,
    live_chat_descriptions, next_continuation, next_delay, runs_pieces, shown, Action,
    AuthorBadge, ChatDescription, Continuations, GetLiveChat, Run, YouTubeError,
    YOUTUBE_CONSENT_COOKIE, YOUTUBE_GET_LIVE_CHAT_URL, YOUTUBE_MAX_POLL_DELAY_MS,
    YOUTUBE_MIN_POLL_DELAY_MS, YOUTUBE_RECONNECT_DELAY_SECS, YOUTUBE_USER_AGENT,
};

verus! {

/// What runs show one after the other is what the first ones show, and behind it what the
/// others show.
pub proof fn law_runs_follow_each_other(runs: Seq<Run>, others: Seq<Run>)
    ensures
        runs_pieces(runs + others) == runs_pieces(runs) + runs_pieces(others),
    decreases others.len(),
{
    if others.len() == 0 {
        assert(runs + others =~= runs);
        assert(runs_pieces(runs) + runs_pieces(others) =~= runs_pieces(runs));
    } else {
        law_runs_follow_each_other(runs, others.drop_last());
        assert((runs + others).drop_last() =~= runs + others.drop_last());
        assert((runs + others).last() == others.last());
        assert(runs_pieces(runs + others) =~= runs_pieces(runs) + runs_pieces(others));
    }
}

/// The words of a run's text, none if there is no text.
pub open spec fn run_words(run: Run) -> Seq<Seq<char>> {
    match run.text {
        Some(text) => words(text@),
        None => seq![],
    }
}

/// Whether a run has an emoji with a thumbnail.
pub open spec fn has_picture(run: Run) -> bool {
    run.emoji matches Some(emoji) && emoji.image.thumbnails@.len() > 0
}

/// The picture at the address of the first thumbnail of a run's emoji.
pub open spec fn first_thumbnail(run: Run) -> Piece {
    Piece { text: None, url: Some(run.emoji->0.image.thumbnails@[0].url@) }
}

/// Each word with a space behind it.
pub open spec fn spaced(split: Seq<Seq<char>>) -> Seq<Piece> {
    Seq::new(split.len(), |i: int| Piece { text: Some(split[i] + seq![' ']), url: None })
}

/// A run shows the words of its text, and behind them the first thumbnail of its emoji.
pub proof fn law_a_run_shows_its_words_and_its_emoji(run: Run)
    ensures
        runs_pieces(seq![run]) == if has_picture(run) {
            spaced(run_words(run)).push(first_thumbnail(run))
        } else {
            spaced(run_words(run))
        },
{
    assert(seq![run].drop_last() =~= Seq::<Run>::empty());
    assert(runs_pieces(Seq::<Run>::empty()) =~= Seq::<Piece>::empty());
    if let Some(text) = run.text {
        law_words_become_pieces(text@);
        assert(crate::segments::word_pieces(text@) =~= spaced(run_words(run)));
    } else {
        assert(spaced(run_words(run)) =~= Seq::<Piece>::empty());
    }
    assert(runs_pieces(seq![run]) =~= crate::youtube::run_pieces(run));
}

proof fn lemma_filter_none(pieces: Seq<Piece>, keep: spec_fn(Piece) -> bool)
    requires
        forall|i: int| 0 <= i < pieces.len() ==> !keep(#[trigger] pieces[i]),
    ensures
        pieces.filter(keep) == Seq::<Piece>::empty(),
    decreases pieces.len(),
{
    reveal(Seq::filter);
    if pieces.len() > 0 {
        assert(!keep(pieces[pieces.len() - 1]));
        lemma_filter_none(pieces.drop_last(), keep);
    }
}

proof fn lemma_filter_all(pieces: Seq<Piece>, keep: spec_fn(Piece) -> bool)
    requires
        forall|i: int| 0 <= i < pieces.len() ==> keep(#[trigger] pieces[i]),
    ensures
        pieces.filter(keep) == pieces,
    decreases pieces.len(),
{
    reveal(Seq::filter);
    if pieces.len() > 0 {
        assert(keep(pieces[pieces.len() - 1]));
        lemma_filter_all(pieces.drop_last(), keep);
        assert(pieces.drop_last().push(pieces.last()) =~= pieces);
    } else {
        assert(pieces.filter(keep) =~= pieces);
    }
}

/// The pictures that runs show are the first thumbnails of all their emojis, in order.
pub proof fn law_pictures_are_first_thumbnails(runs: Seq<Run>)
    ensures
        runs_pieces(runs).filter(|p: Piece| p.url is Some) == runs.filter(
            |r: Run| has_picture(r),
        ).map_values(|r: Run| first_thumbnail(r)),
    decreases runs.len(),
{
    let picture = |p: Piece| p.url is Some;
    let with = |r: Run| has_picture(r);
    let first = |r: Run| first_thumbnail(r);
    reveal(Seq::filter);
    if runs.len() == 0 {
        assert(runs_pieces(runs).filter(picture) =~= runs.filter(with).map_values(first));
    } else {
        let front = runs.drop_last();
        let last = runs.last();
        let split = spaced(run_words(last));
        law_pictures_are_first_thumbnails(front);
        law_runs_follow_each_other(front, seq![last]);
        assert(front + seq![last] =~= runs);
        law_a_run_shows_its_words_and_its_emoji(last);
        Seq::filter_distributes_over_add(runs_pieces(front), runs_pieces(seq![last]), picture);
        lemma_filter_none(split, picture);
        if has_picture(last) {
            assert(split.push(first_thumbnail(last)).drop_last() =~= split);
            assert(runs_pieces(seq![last]).filter(picture) =~= seq![first_thumbnail(last)]);
            assert(runs.filter(with) =~= front.filter(with).push(last));
        } else {
            assert(runs.filter(with) =~= front.filter(with));
        }
        assert(runs_pieces(runs).filter(picture) =~= runs.filter(with).map_values(first));
    }
}

/// What runs show apart from pictures are the words of all their texts, in order.
pub proof fn law_words_of_all_runs_are_shown(runs: Seq<Run>)
    ensures
        runs_pieces(runs).filter(|p: Piece| p.url is None) == spaced(
            runs.map_values(|r: Run| run_words(r)).flatten(),
        ),
    decreases runs.len(),
{
    let no_picture = |p: Piece| p.url is None;
    let split = |r: Run| run_words(r);
    reveal(Seq::filter);
    if runs.len() == 0 {
        assert(runs_pieces(runs).filter(no_picture) =~= spaced(
            runs.map_values(split).flatten(),
        ));
    } else {
        let front = runs.drop_last();
        let last = runs.last();
        let mine = spaced(run_words(last));
        law_words_of_all_runs_are_shown(front);
        law_runs_follow_each_other(front, seq![last]);
        assert(front + seq![last] =~= runs);
        law_a_run_shows_its_words_and_its_emoji(last);
        Seq::filter_distributes_over_add(runs_pieces(front), runs_pieces(seq![last]), no_picture);
        lemma_filter_all(mine, no_picture);
        if has_picture(last) {
            assert(mine.push(first_thumbnail(last)).drop_last() =~= mine);
        }
        assert(runs_pieces(seq![last]).filter(no_picture) =~= mine);
        let before = front.map_values(split);
        assert(runs.map_values(split) =~= before.push(run_words(last)));
        lemma_flatten_push(before, run_words(last));
        assert(spaced(before.flatten() + run_words(last)) =~= spaced(before.flatten()) + mine);
    }
}

proof fn lemma_flatten_push(all: Seq<Seq<Seq<char>>>, last: Seq<Seq<char>>)
    ensures
        all.push(last).flatten() == all.flatten() + last,
    decreases all.len(),
{
    if all.len() == 0 {
        assert(all.push(last).drop_first() =~= Seq::<Seq<Seq<char>>>::empty());
        assert(all.push(last).drop_first().flatten() =~= Seq::<Seq<char>>::empty());
        assert(all.push(last).flatten() =~= last);
        assert(all.flatten() + last =~= last);
    } else {
        lemma_flatten_push(all.drop_first(), last);
        assert(all.push(last).drop_first() =~= all.drop_first().push(last));
        assert(all.push(last).first() == all.first());
        assert(all.push(last).flatten() =~= all.flatten() + last);
    }
}

/// The header and the message show what one message with the runs of both would show, the
/// header's first. One that is missing shows nothing.
pub proof fn law_the_header_stands_before_the_message(description: ChatDescription)
    ensures
        ({
            let header = match description.header_subtext {
                Some(header) => header.runs@,
                None => Seq::<Run>::empty(),
            };
            let message = match description.message {
                Some(message) => message.runs@,
                None => Seq::<Run>::empty(),
            };
            description_pieces(description) == runs_pieces(header + message)
        }),
{
    let header = match description.header_subtext {
        Some(header) => header.runs@,
        None => Seq::<Run>::empty(),
    };
    let message = match description.message {
        Some(message) => message.runs@,
        None => Seq::<Run>::empty(),
    };
    law_runs_follow_each_other(header, message);
    assert(runs_pieces(Seq::<Run>::empty()) =~= Seq::<Piece>::empty());
}

/// How many of the descriptions are there.
pub open spec fn count_present(descriptions: Seq<Option<ChatDescription>>) -> int
    decreases descriptions.len(),
{
    if descriptions.len() == 0 {
        0
    } else if descriptions.last() is Some {
        count_present(descriptions.drop_last()) + 1
    } else {
        count_present(descriptions.drop_last())
    }
}

/// The four renderers of an added item: text, paid message, paid sticker, membership.
pub open spec fn renderers(action: Action) -> Seq<Option<ChatDescription>> {
    match action.add_chat_item_action {
        Some(add) => seq![
            add.item.live_chat_text_message_renderer,
            add.item.live_chat_paid_message_renderer,
            add.item.live_chat_paid_sticker_renderer,
            add.item.live_chat_membership_item_renderer,
        ],
        None => seq![],
    }
}

/// An action gives as many descriptions as renderers are there, and each renderer that is
/// there gives its description behind those of the renderers before it, whichever of the
/// others are there.
pub proof fn law_each_renderer_gives_its_description(action: Action, i: int)
    requires
        0 <= i < renderers(action).len(),
    ensures
        action_descriptions(action).len() == count_present(renderers(action)),
        renderers(action)[i] matches Some(description) ==> {
            let at = count_present(renderers(action).take(i));
            0 <= at < action_descriptions(action).len() && action_descriptions(action)[at]
                == description
        },
{
    reveal_with_fuel(count_present, 5);
    let all = renderers(action);
    assert(all.take(4) =~= all);
    assert(all.drop_last() =~= all.take(3));
    assert(all.take(3).drop_last() =~= all.take(2));
    assert(all.take(2).drop_last() =~= all.take(1));
    assert(all.take(1).drop_last() =~= all.take(0));
    assert(i == 0 || i == 1 || i == 2 || i == 3);
}

/// An action that adds no item gives no description.
pub proof fn law_no_item_no_description(action: Action)
    requires
        action.add_chat_item_action is None,
    ensures
        action_descriptions(action).len() == 0,
{
}

/// What actions add one after the other is what the first ones add, and behind it what the
/// others add; one alone adds its descriptions.
pub proof fn law_actions_follow_each_other(actions: Seq<Action>, others: Seq<Action>)
    ensures
        actions_descriptions(actions + others) == actions_descriptions(actions)
            + actions_descriptions(others),
        others.len() == 1 ==> actions_descriptions(others) == action_descriptions(others[0]),
    decreases others.len(),
{
    if others.len() == 0 {
        assert(actions + others =~= actions);
        assert(actions_descriptions(actions) + actions_descriptions(others)
            =~= actions_descriptions(actions));
    } else {
        law_actions_follow_each_other(actions, others.drop_last());
        assert((actions + others).drop_last() =~= actions + others.drop_last());
        assert((actions + others).last() == others.last());
        assert(actions_descriptions(actions + others) =~= actions_descriptions(actions)
            + actions_descriptions(others));
        if others.len() == 1 {
            assert(actions_descriptions(others.drop_last()) =~= Seq::<ChatDescription>::empty());
            assert(actions_descriptions(others) =~= action_descriptions(others[0]));
        }
    }
}

/// Every renderer of every action of an answer gives a description of the answer; an answer
/// without actions gives none.
pub proof fn law_every_renderer_is_taken_in(live_chat: GetLiveChat, i: int, k: int)
    requires
        live_chat.continuation_contents.live_chat_continuation.actions is Some,
        0 <= i < live_chat.continuation_contents.live_chat_continuation.actions->0@.len(),
        0 <= k < renderers(
            live_chat.continuation_contents.live_chat_continuation.actions->0@[i],
        ).len(),
    ensures
        ({
            let actions = live_chat.continuation_contents.live_chat_continuation.actions->0@;
            renderers(actions[i])[k] matches Some(description) ==> live_chat_descriptions(
                live_chat,
            ).contains(description)
        }),
{
    let actions = live_chat.continuation_contents.live_chat_continuation.actions->0@;
    if let Some(description) = renderers(actions[i])[k] {
        law_each_renderer_gives_its_description(actions[i], k);
        let at = count_present(renderers(actions[i]).take(k));
        let before = actions.take(i);
        let one = seq![actions[i]];
        let behind = actions.skip(i + 1);
        law_actions_follow_each_other(before, one);
        law_actions_follow_each_other(before + one, behind);
        assert(before + one + behind =~= actions);
        let all = live_chat_descriptions(live_chat);
        assert(all =~= actions_descriptions(before) + action_descriptions(actions[i])
            + actions_descriptions(behind));
        assert(all[actions_descriptions(before).len() + at] == description);
    }
}

/// What is new in the chat is what all actions of the answer add.
pub proof fn law_an_answer_is_its_actions(live_chat: GetLiveChat)
    ensures
        match live_chat.continuation_contents.live_chat_continuation.actions {
            Some(actions) => live_chat_descriptions(live_chat) == actions_descriptions(actions@),
            None => live_chat_descriptions(live_chat).len() == 0,
        },
{
}

/// Descriptions that show something are all taken in, in order, and no others: those of two
/// answers are those of the first and then those of the second.
pub proof fn law_what_shows_something_is_taken_in(
    descriptions: Seq<ChatDescription>,
    others: Seq<ChatDescription>,
    description: ChatDescription,
)
    ensures
        shown(descriptions + others) == shown(descriptions) + shown(others),
        shown(seq![description]) == if description_pieces(description).len() > 0 {
            seq![description]
        } else {
            Seq::<ChatDescription>::empty()
        },
        shown(Seq::<ChatDescription>::empty()).len() == 0,
{
    let keep = |d: ChatDescription| description_pieces(d).len() > 0;
    Seq::filter_distributes_over_add(descriptions, others, keep);
    reveal_with_fuel(Seq::filter, 2);
    assert(seq![description].drop_last() =~= Seq::<ChatDescription>::empty());
    assert(shown(seq![description]) =~= if description_pieces(description).len() > 0 {
        seq![description]
    } else {
        Seq::<ChatDescription>::empty()
    });
}

/// Whether a badge's icon is of that type.
pub open spec fn shows_icon(badge: AuthorBadge, name: Seq<char>) -> bool {
    badge.live_chat_author_badge_renderer matches Some(renderer) && (renderer.icon matches Some(
        icon,
    ) && (icon.icon_type matches Some(kind) && kind@ == name))
}

/// The author owns the channel, moderates it or is a member exactly if any of the badges, at
/// whatever place, shows the icon for that.
pub proof fn law_a_badge_counts_anywhere(
    description: ChatDescription,
    id: int,
    timestamp: Seq<char>,
)
    ensures
        ({
            let chat = chat_message(description, id, timestamp);
            match description.author_badges {
                Some(badges) => {
                    &&& chat.is_owner <==> exists|i: int|
                        0 <= i < badges@.len() && #[trigger] shows_icon(badges@[i], "OWNER"@)
                    &&& chat.is_moderator <==> exists|i: int|
                        0 <= i < badges@.len() && #[trigger] shows_icon(badges@[i], "MODERATOR"@)
                    &&& chat.is_subscriber <==> exists|i: int|
                        0 <= i < badges@.len() && #[trigger] shows_icon(badges@[i], "MEMBER"@)
                },
                None => !chat.is_owner && !chat.is_moderator && !chat.is_subscriber,
            }
        }),
{
    lemma_badge(description, "OWNER"@);
    lemma_badge(description, "MODERATOR"@);
    lemma_badge(description, "MEMBER"@);
}

/// The author has a badge exactly if one of the badges shows its icon.
proof fn lemma_badge(description: ChatDescription, name: Seq<char>)
    ensures
        has_badge(description, name) <==> (description.author_badges matches Some(badges) && exists|
            i: int,
        |
            0 <= i < badges@.len() && #[trigger] shows_icon(badges@[i], name)),
{
    if let Some(badges) = description.author_badges {
        assert forall|i: int| 0 <= i < badges@.len() implies shows_icon(badges@[i], name) == (
        crate::youtube::icon_type(#[trigger] badges@[i]) == Some(name)) by {}
        if has_badge(description, name) {
            let i = choose|i: int|
                0 <= i < badges@.len() && crate::youtube::icon_type(#[trigger] badges@[i]) == Some(
                    name,
                );
            assert(shows_icon(badges@[i], name));
        }
        if exists|i: int| 0 <= i < badges@.len() && #[trigger] shows_icon(badges@[i], name) {
            let i = choose|i: int|
                0 <= i < badges@.len() && #[trigger] shows_icon(badges@[i], name);
            assert(crate::youtube::icon_type(badges@[i]) == Some(name));
        }
    }
}

/// Whatever else a description holds, the chat message names its author and shows what the
/// description shows; it has the number and the time that it is given, and nothing that
/// YouTube does not tell.
pub proof fn law_the_author_is_named(description: ChatDescription, id: int, timestamp: Seq<char>)
    ensures
        ({
            let chat = chat_message(description, id, timestamp);
            &&& chat.display_name == Some(description.author_name.simple_text@)
            &&& chat.user == Some(description.author_name.simple_text@)
            &&& chat.segments == numbered(description_pieces(description))
            &&& chat.platform == (Platform::YouTube {  })
            &&& chat.id == id
            &&& chat.timestamp == timestamp
            &&& chat.message_id is None
            &&& chat.user_id is None
            &&& chat.user_color is None
            &&& chat.user_badges.len() == 0
            &&& !chat.is_action
            &&& chat.bits is None
        }),
{
}

/// Each description that comes in is stored as the newest message, with the next number and
/// its time, and takes a chat message number and a request number. The oldest messages make
/// room; nothing else changes.
pub proof fn law_descriptions_are_stored_in_order(
    state: StateView,
    descriptions: Seq<ChatDescription>,
    timestamps: Seq<Timestamp>,
)
    requires
        timestamps.len() == descriptions.len(),
        state.chat_messages.len() <= 100,
    ensures
        ({
            let r = append_descriptions(state, descriptions, timestamps);
            let n = descriptions.len();
            let all = state.chat_messages + Seq::new(
                n,
                |i: int|
                    chat_message(
                        descriptions[i],
                        state.chat_message_id + 1 + i,
                        rfc3339_text(timestamps[i].seconds as int, timestamps[i].nanos as int),
                    ),
            );
            &&& r.chat_messages == if all.len() > 100 {
                all.subrange(all.len() - 100, all.len() as int)
            } else {
                all
            }
            &&& r.chat_message_id == state.chat_message_id + n
            &&& r.request_id == state.request_id + n
            &&& r.writer == state.writer
            &&& r.twitch_chat == state.twitch_chat
            &&& r.youtube_chat == state.youtube_chat
        }),
    decreases descriptions.len(),
{
    let n = descriptions.len();
    let messages = Seq::new(
        n,
        |i: int|
            chat_message(
                descriptions[i],
                state.chat_message_id + 1 + i,
                rfc3339_text(timestamps[i].seconds as int, timestamps[i].nanos as int),
            ),
    );
    let all = state.chat_messages + messages;
    let r = append_descriptions(state, descriptions, timestamps);
    if n == 0 {
        assert(all =~= state.chat_messages);
    } else {
        let front = descriptions.drop_last();
        let times = timestamps.drop_last();
        law_descriptions_are_stored_in_order(state, front, times);
        let before = state.chat_messages + Seq::new(
            front.len(),
            |i: int|
                chat_message(
                    front[i],
                    state.chat_message_id + 1 + i,
                    rfc3339_text(times[i].seconds as int, times[i].nanos as int),
                ),
        );
        assert(all =~= before.push(messages.last()));
        assert(r.chat_messages =~= if all.len() > 100 {
            all.subrange(all.len() - 100, all.len() as int)
        } else {
            all
        });
    }
}

/// The chat goes on at the first continuation that says where, and nowhere exactly if none
/// says so.
pub proof fn law_the_first_continuation_counts(continuations: Seq<Continuations>)
    ensures
        match next_continuation(continuations) {
            Some(token) => exists|i: int|
                {
                    &&& 0 <= i < continuations.len()
                    &&& (#[trigger] continuations[i]).invalidation_continuation_data matches Some(
                        data,
                    ) && data.continuation@ == token
                    &&& forall|j: int|
                        0 <= j < i ==> (
                        #[trigger] continuations[j]).invalidation_continuation_data is None
                },
            None => forall|i: int|
                0 <= i < continuations.len() ==> (
                #[trigger] continuations[i]).invalidation_continuation_data is None,
        },
    decreases continuations.len(),
{
    if continuations.len() > 0 && continuations[0].invalidation_continuation_data is None {
        let rest = continuations.skip(1);
        law_the_first_continuation_counts(rest);
        match next_continuation(continuations) {
            Some(token) => {
                let i = choose|i: int|
                    {
                        &&& 0 <= i < rest.len()
                        &&& (#[trigger] rest[i]).invalidation_continuation_data matches Some(data)
                            && data.continuation@ == token
                        &&& forall|j: int|
                            0 <= j < i ==> (
                            #[trigger] rest[j]).invalidation_continuation_data is None
                    };
                assert(continuations[i + 1] == rest[i]);
                assert forall|j: int| 0 <= j < i + 1 implies (
                #[trigger] continuations[j]).invalidation_continuation_data is None by {
                    if j > 0 {
                        assert(rest[j - 1] == continuations[j]);
                    }
                }
            },
            None => {
                assert forall|i: int| 0 <= i < continuations.len() implies (
                #[trigger] continuations[i]).invalidation_continuation_data is None by {
                    if i > 0 {
                        assert(rest[i - 1] == continuations[i]);
                    }
                }
            },
        }
    }
}

/// Where the chat goes on after an answer is told by the answer's own continuations.
pub proof fn law_the_answer_tells_where_to_go_on(live_chat: GetLiveChat)
    ensures
        live_chat_continuation(live_chat) == next_continuation(
            live_chat.continuation_contents.live_chat_continuation.continuations@,
        ),
{
}

/// The wait is the whole number of milliseconds nearest below five times the last wait for
/// each message, if that lies between a fifth of a second and three seconds, and else the
/// nearer of the two. Without messages it is three seconds.
pub proof fn law_the_wait_is_five_times_the_last_per_message(delay_ms: int, message_count: int)
    requires
        0 <= delay_ms,
        0 <= message_count,
    ensures
        ({
            let wait = next_delay(delay_ms, message_count);
            &&& 200 <= wait <= 3000
            &&& message_count == 0 ==> wait == 3000
            &&& message_count > 0 && wait < 3000 ==> 5 * delay_ms < (wait + 1) * message_count
            &&& message_count > 0 && wait > 200 ==> wait * message_count <= 5 * delay_ms
        }),
{
    if message_count > 0 {
        let total = delay_ms * 5;
        let q = total / message_count;
        assert(q * message_count <= total < (q + 1) * message_count) by (nonlinear_arith)
            requires
                q == total / message_count,
                message_count > 0,
        ;
        let wait = next_delay(delay_ms, message_count);
        if wait > q {
            assert((q + 1) * message_count <= (wait + 1) * message_count) by (nonlinear_arith)
                requires
                    q < wait,
                    message_count > 0,
            ;
        }
        if wait < q {
            assert(wait * message_count <= q * message_count) by (nonlinear_arith)
                requires
                    wait < q,
                    message_count > 0,
            ;
        }
    }
}

/// The status codes of success are those from two hundred to two hundred and ninety-nine.
pub proof fn law_success_is_two_hundred_something(code: u16)
    ensures
        is_success(code) <==> code / 100 == 2,
{
}

/// The text of an error about a status ends with that status; the other texts are fixed.
pub proof fn law_errors_tell_the_status(status: String)
    ensures
        error_text(YouTubeError::PageStatus(status))
            == "YouTube live chat page returned status "@ + status@,
        error_text(YouTubeError::ChatStatus(status)) == "YouTube get_live_chat returned status "@
            + status@,
        error_text(YouTubeError::NoInitialContinuation)
            == "No continuation token found in YouTube live chat page"@,
        error_text(YouTubeError::NoContinuation) == "No continuation token in YouTube response"@,
{
}

/// What is new in the chat can be taken in exactly if the segments of each description can be
/// numbered and a number of either kind is left for each one that shows something.
pub proof fn law_which_answers_are_taken_in(state: StateView, live_chat: GetLiveChat)
    ensures
        ({
            let descriptions = live_chat_descriptions(live_chat);
            can_append(state, live_chat) <==> {
                &&& forall|i: int|
                    0 <= i < descriptions.len() ==> description_pieces(
                        #[trigger] descriptions[i],
                    ).len() <= 2_147_483_647
                &&& state.chat_message_id + shown(descriptions).len() <= 2_147_483_647
                &&& state.request_id + shown(descriptions).len() <= 2_147_483_647
            }
        }),
{
}

/// Each description of an answer that shows something is numbered and stored, in order, and
/// while the streamer is connected each is sent to it in a request of its own, with its
/// author and what it shows. Nothing else is stored or sent.
pub proof fn law_an_answer_is_stored_and_sent(
    state: StateView,
    live_chat: GetLiveChat,
    new_state: StateView,
    outgoing: Seq<OutgoingView>,
)
    requires
        appended(state, live_chat, new_state, outgoing),
        state.chat_messages.len() <= 100,
    ensures
        ({
            let descriptions = shown(live_chat_descriptions(live_chat));
            let n = descriptions.len();
            &&& new_state.chat_message_id == state.chat_message_id + n
            &&& new_state.request_id == state.request_id + n
            &&& new_state.writer == state.writer
            &&& new_state.twitch_chat == state.twitch_chat
            &&& new_state.youtube_chat == state.youtube_chat
            &&& new_state.chat_messages.len() == if state.chat_messages.len() + n > 100 {
                100
            } else {
                state.chat_messages.len() + n
            }
            &&& forall|i: int|
                0 <= i < n && i < 100 ==> {
                    let stored = #[trigger] new_state.chat_messages[new_state.chat_messages.len()
                        - 1 - i];
                    stored == chat_message(
                        descriptions[n - 1 - i],
                        state.chat_message_id + n - i,
                        stored.timestamp,
                    )
                }
            &&& match state.writer {
                Some(c) => {
                    &&& outgoing.len() == n
                    &&& forall|i: int|
                        0 <= i < n ==> {
                            let request = #[trigger] outgoing[i];
                            &&& request.to == c
                            &&& request.message matches MessageToStreamerView::ChatMessages {
                                id,
                                history,
                                messages,
                            } && {
                                &&& id == state.request_id + 1 + i
                                &&& !history
                                &&& messages.len() == 1
                                &&& messages[0] == chat_message(
                                    descriptions[i],
                                    state.chat_message_id + 1 + i,
                                    messages[0].timestamp,
                                )
                            }
                        }
                },
                None => outgoing.len() == 0,
            }
        }),
{
    let descriptions = shown(live_chat_descriptions(live_chat));
    let n = descriptions.len();
    let timestamps = choose|timestamps: Seq<Timestamp>|
        {
            &&& are_times(timestamps, n)
            &&& new_state == #[trigger] append_descriptions(state, descriptions, timestamps)
            &&& outgoing == description_requests(state, descriptions, timestamps)
        };
    law_descriptions_are_stored_in_order(state, descriptions, timestamps);
    law_descriptions_are_sent_in_order(state, descriptions, timestamps);
    let all = state.chat_messages + Seq::new(
        n,
        |i: int|
            chat_message(
                descriptions[i],
                state.chat_message_id + 1 + i,
                rfc3339_text(timestamps[i].seconds as int, timestamps[i].nanos as int),
            ),
    );
    assert forall|i: int| 0 <= i < n && i < 100 implies {
        let stored = #[trigger] new_state.chat_messages[new_state.chat_messages.len() - 1 - i];
        stored == chat_message(
            descriptions[n - 1 - i],
            state.chat_message_id + n - i,
            stored.timestamp,
        )
    } by {
        let k = all.len() - 1 - i;
        assert(new_state.chat_messages[new_state.chat_messages.len() - 1 - i] == all[k]);
        assert(k - state.chat_messages.len() == n - 1 - i);
    }
}

/// Where YouTube is asked and how, and how long is waited.
pub proof fn law_how_youtube_is_asked()
    ensures
        YOUTUBE_GET_LIVE_CHAT_URL@
            == "https://www.youtube.com/youtubei/v1/live_chat/get_live_chat"@,
        YOUTUBE_CONSENT_COOKIE@ == "CONSENT=YES+1"@,
        YOUTUBE_USER_AGENT@
            == "Mozilla/5.0 (Macintosh; Intel Mac OS X 10.15; rv:124.0) Gecko/20100101 Firefox/124.0"@,
        YOUTUBE_RECONNECT_DELAY_SECS == 5,
        YOUTUBE_MIN_POLL_DELAY_MS == 200,
        YOUTUBE_MAX_POLL_DELAY_MS == 3000,
{
}

} // verus!
