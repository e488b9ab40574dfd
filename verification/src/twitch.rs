//! Chat messages from Twitch.

use std::ops::Range;

use vstd::prelude::*;
use vstd::string::StringExecFns;

use crate::protocol::{
    segment_views, ChatMessage, ChatMessageView, ChatPostSegment, Platform, RgbColor,
};
use crate::segments::{
    in_order, lemma_in_order, numbered, picture_piece, pieces_of, push_segment, push_words,
    text_piece, word_pieces, Piece,
};
use crate::streamer::{outgoing_view, Outgoing, StreamerState};
use crate::text::{
    chars_of, count_words, decimal, decimal_text, law_words_are_words, texts, words,
};
use crate::time::Timestamp;

verus! {

/// A picture in a chat message, in place of the characters of `char_range`.
#[derive(Debug)]
pub struct Emote {
    pub id: String,
    pub char_range: Range<usize>,
    pub code: String,
}

/// Where the picture of the emote `id` is.
pub open spec fn emote_address(id: Seq<char>) -> Seq<char> {
    "https://static-cdn.jtvnw.net/emoticons/v2/"@ + id + "/default/dark/3.0"@
}

/// `emotes` in the order of their starts, which `emote` joins behind all that start no later.
pub open spec fn insert_by_start(emotes: Seq<Emote>, emote: Emote) -> Seq<Emote>
    decreases emotes.len(),
{
    if emotes.len() == 0 || emotes.last().char_range.start <= emote.char_range.start {
        emotes.push(emote)
    } else {
        insert_by_start(emotes.drop_last(), emote).push(emotes.last())
    }
}

/// The emotes in the order of their starts. Emotes with the same start keep their order.
pub open spec fn by_start(emotes: Seq<Emote>) -> Seq<Emote>
    decreases emotes.len(),
{
    if emotes.len() == 0 {
        emotes
    } else {
        insert_by_start(by_start(emotes.drop_last()), emotes.last())
    }
}

/// Whether an emote starts at `start`.
pub open spec fn starts_at(start: int) -> spec_fn(Emote) -> bool {
    |e: Emote| e.char_range.start == start
}

/// Whether the emotes stand in the order of their starts.
pub open spec fn starts_ascend(emotes: Seq<Emote>) -> bool {
    forall|i: int, j: int|
        0 <= i <= j < emotes.len() ==> (#[trigger] emotes[i]).char_range.start <= (
        #[trigger] emotes[j]).char_range.start
}

proof fn lemma_insert_ascends(emotes: Seq<Emote>, emote: Emote)
    requires
        starts_ascend(emotes),
    ensures
        starts_ascend(insert_by_start(emotes, emote)),
        insert_by_start(emotes, emote).len() == emotes.len() + 1,
        forall|i: int|
            0 <= i <= emotes.len() ==> {
                let e = #[trigger] insert_by_start(emotes, emote)[i];
                e == emote || emotes.contains(e)
            },
    decreases emotes.len(),
{
    if emotes.len() > 0 && emotes.last().char_range.start > emote.char_range.start {
        let front = emotes.drop_last();
        lemma_insert_ascends(front, emote);
        let r = insert_by_start(emotes, emote);
        assert forall|i: int| 0 <= i <= emotes.len() implies {
            let e = #[trigger] r[i];
            e == emote || emotes.contains(e)
        } by {
            if i < emotes.len() {
                let e = insert_by_start(front, emote)[i];
                assert(r[i] == e);
                if e != emote {
                    let k = choose|k: int| 0 <= k < front.len() && front[k] == e;
                    assert(emotes[k] == e);
                }
            } else {
                assert(emotes[emotes.len() - 1] == r[i]);
            }
        }
        assert forall|i: int, j: int| 0 <= i <= j < r.len() implies (
        #[trigger] r[i]).char_range.start <= (#[trigger] r[j]).char_range.start by {
            if j < emotes.len() {
                assert(r[i] == insert_by_start(front, emote)[i]);
                assert(r[j] == insert_by_start(front, emote)[j]);
            } else if i < j {
                assert(r[j] == emotes.last());
                let e = r[i];
                assert(e == insert_by_start(front, emote)[i]);
                if e != emote {
                    let k = choose|k: int| 0 <= k < front.len() && front[k] == e;
                    assert(emotes[k] == e);
                }
            }
        }
    } else {
        let r = emotes.push(emote);
        assert forall|i: int| 0 <= i <= emotes.len() implies {
            let e = #[trigger] r[i];
            e == emote || emotes.contains(e)
        } by {
            if i < emotes.len() {
                assert(emotes[i] == r[i]);
            }
        }
    }
}

proof fn lemma_filter_push(emotes: Seq<Emote>, emote: Emote, keep: spec_fn(Emote) -> bool)
    ensures
        emotes.push(emote).filter(keep) == if keep(emote) {
            emotes.filter(keep).push(emote)
        } else {
            emotes.filter(keep)
        },
{
    reveal(Seq::filter);
    assert(emotes.push(emote).drop_last() =~= emotes);
}

proof fn lemma_insert_keeps_order(emotes: Seq<Emote>, emote: Emote, start: int)
    ensures
        insert_by_start(emotes, emote).filter(starts_at(start)) == emotes.push(emote).filter(
            starts_at(start),
        ),
    decreases emotes.len(),
{
    if emotes.len() > 0 && emotes.last().char_range.start > emote.char_range.start {
        let front = emotes.drop_last();
        let last = emotes.last();
        let p = starts_at(start);
        lemma_insert_keeps_order(front, emote, start);
        lemma_filter_push(insert_by_start(front, emote), last, p);
        lemma_filter_push(front, emote, p);
        lemma_filter_push(front, last, p);
        lemma_filter_push(emotes, emote, p);
        assert(front.push(last) =~= emotes);
        assert(insert_by_start(emotes, emote).filter(p) =~= emotes.push(emote).filter(p));
    }
}

/// Ordering the emotes leaves each in: the order is that of the starts, and for
/// every start, the emotes there are the same ones, in the order they came in.
pub proof fn law_by_start_is_a_stable_order(emotes: Seq<Emote>)
    ensures
        by_start(emotes).len() == emotes.len(),
        starts_ascend(by_start(emotes)),
        forall|start: int|
            #![trigger by_start(emotes).filter(starts_at(start))]
            by_start(emotes).filter(starts_at(start)) == emotes.filter(starts_at(start)),
    decreases emotes.len(),
{
    if emotes.len() > 0 {
        let front = emotes.drop_last();
        let last = emotes.last();
        law_by_start_is_a_stable_order(front);
        lemma_insert_ascends(by_start(front), last);
        assert forall|start: int|
            #![trigger by_start(emotes).filter(starts_at(start))]
            by_start(emotes).filter(starts_at(start)) == emotes.filter(starts_at(start)) by {
            lemma_insert_keeps_order(by_start(front), last, start);
            lemma_filter_push(by_start(front), last, starts_at(start));
            lemma_filter_push(front, last, starts_at(start));
            assert(front.push(last) =~= emotes);
            assert(by_start(front).filter(starts_at(start)) == front.filter(starts_at(start)));
        }
    }
}

proof fn lemma_insert_at(emotes: Seq<Emote>, emote: Emote, at: int)
    requires
        0 <= at <= emotes.len(),
        at > 0 ==> emotes[at - 1].char_range.start <= emote.char_range.start,
        forall|i: int|
            at <= i < emotes.len() ==> (#[trigger] emotes[i]).char_range.start
                > emote.char_range.start,
    ensures
        insert_by_start(emotes, emote) == emotes.insert(at, emote),
    decreases emotes.len() - at,
{
    if at == emotes.len() {
        assert(emotes.insert(at, emote) =~= emotes.push(emote));
    } else {
        assert(emotes[emotes.len() - 1].char_range.start > emote.char_range.start);
        let front = emotes.drop_last();
        assert(at > 0 ==> front[at - 1] == emotes[at - 1]);
        lemma_insert_at(front, emote, at);
        assert(emotes.insert(at, emote) =~= front.insert(at, emote).push(emotes.last()));
    }
}

/// The emotes behind the references.
spec fn referred(emotes: Seq<&Emote>) -> Seq<Emote> {
    emotes.map_values(|e: &Emote| *e)
}

/// References to the emotes in the order of their starts.
fn sort_by_start<'a>(emotes: &'a [Emote]) -> (r: Vec<&'a Emote>)
    ensures
        referred(r@) == by_start(emotes@),
{
    let mut sorted: Vec<&Emote> = Vec::new();
    let mut i: usize = 0;
    assert(referred(sorted@) =~= by_start(emotes@.take(0)));
    while i < emotes.len()
        invariant
            i <= emotes@.len(),
            referred(sorted@) == by_start(emotes@.take(i as int)),
        decreases emotes@.len() - i,
    {
        let emote = &emotes[i];
        let mut at: usize = sorted.len();
        while at > 0 && sorted[at - 1].char_range.start > emote.char_range.start
            invariant
                at <= sorted@.len(),
                forall|k: int|
                    at <= k < sorted@.len() ==> (#[trigger] sorted@[k]).char_range.start
                        > emote.char_range.start,
            ensures
                at <= sorted@.len(),
                at > 0 ==> sorted@[at - 1].char_range.start <= emote.char_range.start,
                forall|k: int|
                    at <= k < sorted@.len() ==> (#[trigger] sorted@[k]).char_range.start
                        > emote.char_range.start,
            decreases at,
        {
            at -= 1;
        }
        proof {
            let before = referred(sorted@);
            assert(at > 0 ==> before[at - 1] == *sorted@[at - 1]);
            assert forall|k: int| at <= k < before.len() implies (
            #[trigger] before[k]).char_range.start > emote.char_range.start by {
                assert(before[k] == *sorted@[k]);
            }
            lemma_insert_at(before, *emote, at as int);
            assert(referred(sorted@.insert(at as int, emote)) =~= before.insert(
                at as int,
                *emote,
            ));
            assert(emotes@.take(i + 1).drop_last() =~= emotes@.take(i as int));
            assert(emotes@.take(i + 1).last() == *emote);
        }
        sorted.insert(at, emote);
        i += 1;
    }
    assert(emotes@.take(i as int) =~= emotes@);
    sorted
}

/// Where the picture of the emote `id` is.
fn emote_url(id: &str) -> (r: String)
    ensures
        r@ == emote_address(id@),
{
    let mut url = "https://static-cdn.jtvnw.net/emoticons/v2/".to_string();
    url.append(id);
    url.append("/default/dark/3.0");
    url
}

/// What `text` shows from the character `from` on, where `emotes` stand in the
/// order of their starts: up to each emote the words before it, its picture and
/// an empty text, and the words behind the last emote. Emotes that start behind
/// the end of the text are left out.
pub open spec fn emote_pieces(text: Seq<char>, emotes: Seq<Emote>, from: int) -> Seq<Piece>
    decreases emotes.len(),
{
    if emotes.len() == 0 || emotes[0].char_range.start >= text.len() {
        if from < text.len() {
            word_pieces(text.skip(from))
        } else {
            seq![]
        }
    } else {
        let start = emotes[0].char_range.start as int;
        let end = emotes[0].char_range.end as int;
        let before = if start > from {
            word_pieces(text.subrange(from, start))
        } else {
            seq![]
        };
        before + seq![picture_piece(emote_address(emotes[0].id@)), text_piece(seq![])]
            + emote_pieces(
            text,
            emotes.skip(1),
            if end < text.len() {
                end
            } else {
                text.len() as int
            },
        )
    }
}

/// What a Twitch message shows. A message without words and emotes is shown as it is.
pub open spec fn message_pieces(text: Seq<char>, emotes: Seq<Emote>) -> Seq<Piece> {
    let pieces = emote_pieces(text, by_start(emotes), 0);
    if pieces.len() == 0 {
        seq![text_piece(text)]
    } else {
        pieces
    }
}

/// The segments of a Twitch message.
pub fn create_segments(message_text: &str, emotes: &[Emote]) -> (r: Vec<ChatPostSegment>)
    requires
        message_pieces(message_text@, emotes@).len() <= i32::MAX,
    ensures
        segment_views(r@) == numbered(message_pieces(message_text@, emotes@)),
{
    let ghost text = message_text@;
    let mut segments: Vec<ChatPostSegment> = Vec::new();
    let chars = chars_of(message_text);
    let sorted_emotes = sort_by_start(emotes);
    let ghost sorted = by_start(emotes@);
    let ghost all = emote_pieces(text, sorted, 0);
    let mut start_index: usize = 0;
    let mut i: usize = 0;
    assert(sorted.skip(0) =~= sorted);
    assert(pieces_of(segments@) + all =~= all);
    while i < sorted_emotes.len()
        invariant
            chars@ == text,
            referred(sorted_emotes@) == sorted,
            i <= sorted.len(),
            start_index <= text.len(),
            all.len() <= i32::MAX,
            in_order(segments@),
            pieces_of(segments@) + emote_pieces(text, sorted.skip(i as int), start_index as int)
                == all,
        ensures
            start_index <= text.len(),
            in_order(segments@),
            pieces_of(segments@) + (if start_index < text.len() {
                word_pieces(text.skip(start_index as int))
            } else {
                seq![]
            }) == all,
        decreases sorted.len() - i,
    {
        let emote = sorted_emotes[i];
        let ghost rest = sorted.skip(i as int);
        assert(sorted[i as int] == *sorted_emotes@[i as int]);
        assert(rest[0] == *emote);
        if emote.char_range.start >= chars.len() {
            break ;
        }
        let ghost shown = pieces_of(segments@);
        let emote_end: usize = if emote.char_range.end < chars.len() {
            emote.char_range.end
        } else {
            chars.len()
        };
        let ghost after = emote_pieces(text, rest.skip(1), emote_end as int);
        let ghost before = if emote.char_range.start > start_index {
            word_pieces(text.subrange(start_index as int, emote.char_range.start as int))
        } else {
            seq![]
        };
        let ghost picture = picture_piece(emote_address(emote.id@));
        let ghost gap = text_piece(seq![]);
        proof {
            assert(all =~= shown + (before + seq![picture, gap] + after));
            assert(shown.len() + before.len() + 2 + after.len() == all.len());
            assert(pieces_of(segments@).len() == segments@.len());
        }
        if emote.char_range.start > start_index {
            push_words(&mut segments, chars.as_slice(), start_index, emote.char_range.start);
        }
        assert(pieces_of(segments@) =~= shown + before);
        assert(pieces_of(segments@).len() == segments@.len());
        push_segment(&mut segments, None, Some(emote_url(emote.id.as_str())));
        assert(pieces_of(segments@) =~= (shown + before).push(picture));
        assert(pieces_of(segments@).len() == segments@.len());
        push_segment(&mut segments, Some(String::new()), None);
        start_index = emote_end;
        i += 1;
        proof {
            assert(sorted.skip(i as int) =~= rest.skip(1));
            assert(pieces_of(segments@) =~= shown + before + seq![picture, gap]);
            assert(pieces_of(segments@) + after =~= all);
        }
    }
    if start_index < chars.len() {
        assert(text.subrange(start_index as int, text.len() as int) =~= text.skip(
            start_index as int,
        ));
        assert(pieces_of(segments@).len() == segments@.len());
        push_words(&mut segments, chars.as_slice(), start_index, chars.len());
    }
    assert(pieces_of(segments@) =~= all);
    assert(pieces_of(segments@).len() == segments@.len());
    if segments.is_empty() {
        push_segment(&mut segments, Some(message_text.to_string()), None);
        assert(pieces_of(segments@) =~= seq![text_piece(text)]);
    }
    proof {
        lemma_in_order(segments@);
    }
    segments
}

/// The pictures among `pieces`.
pub open spec fn pictures(pieces: Seq<Piece>) -> Seq<Piece> {
    pieces.filter(|p: Piece| p.url is Some)
}

/// The emotes that start inside a text of `len` characters.
pub open spec fn starting_before(emotes: Seq<Emote>, len: nat) -> Seq<Emote> {
    emotes.filter(|e: Emote| e.char_range.start < len)
}

/// The pictures of `emotes`.
pub open spec fn emote_pictures(emotes: Seq<Emote>) -> Seq<Piece> {
    emotes.map_values(|e: Emote| picture_piece(emote_address(e.id@)))
}

proof fn lemma_no_pictures(pieces: Seq<Piece>)
    requires
        forall|i: int| 0 <= i < pieces.len() ==> (#[trigger] pieces[i]).url is None,
    ensures
        pictures(pieces) == Seq::<Piece>::empty(),
    decreases pieces.len(),
{
    reveal(Seq::filter);
    if pieces.len() > 0 {
        assert(pieces[pieces.len() - 1].url is None);
        lemma_no_pictures(pieces.drop_last());
    }
}

proof fn lemma_none_start_before(emotes: Seq<Emote>, len: nat)
    requires
        forall|i: int| 0 <= i < emotes.len() ==> (#[trigger] emotes[i]).char_range.start >= len,
    ensures
        starting_before(emotes, len) == Seq::<Emote>::empty(),
    decreases emotes.len(),
{
    reveal(Seq::filter);
    if emotes.len() > 0 {
        assert(emotes[emotes.len() - 1].char_range.start >= len);
        lemma_none_start_before(emotes.drop_last(), len);
    }
}

proof fn lemma_emote_pictures(text: Seq<char>, emotes: Seq<Emote>, from: int)
    requires
        starts_ascend(emotes),
        0 <= from,
    ensures
        pictures(emote_pieces(text, emotes, from)) == emote_pictures(
            starting_before(emotes, text.len()),
        ),
    decreases emotes.len(),
{
    let is_picture = |p: Piece| p.url is Some;
    let inside = |e: Emote| e.char_range.start < text.len();
    if emotes.len() == 0 || emotes[0].char_range.start >= text.len() {
        lemma_no_pictures(emote_pieces(text, emotes, from));
        assert forall|i: int| 0 <= i < emotes.len() implies (
        #[trigger] emotes[i]).char_range.start >= text.len() by {
            assert(emotes[0].char_range.start <= emotes[i].char_range.start);
        }
        lemma_none_start_before(emotes, text.len());
        assert(emote_pictures(starting_before(emotes, text.len())) =~= Seq::<Piece>::empty());
    } else {
        let first = emotes[0];
        let start = first.char_range.start as int;
        let end = if first.char_range.end < text.len() {
            first.char_range.end as int
        } else {
            text.len() as int
        };
        let before = if start > from {
            word_pieces(text.subrange(from, start))
        } else {
            seq![]
        };
        let picture = picture_piece(emote_address(first.id@));
        let gap = text_piece(seq![]);
        let rest = emotes.skip(1);
        let after = emote_pieces(text, rest, end);
        assert forall|i: int, j: int| 0 <= i <= j < rest.len() implies (
        #[trigger] rest[i]).char_range.start <= (#[trigger] rest[j]).char_range.start by {
            assert(rest[i] == emotes[i + 1]);
            assert(rest[j] == emotes[j + 1]);
        }
        lemma_emote_pictures(text, rest, end);
        Seq::filter_distributes_over_add(before + seq![picture, gap], after, is_picture);
        Seq::filter_distributes_over_add(before, seq![picture, gap], is_picture);
        lemma_no_pictures(before);
        assert(seq![picture, gap].filter(is_picture) =~= seq![picture]) by {
            reveal_with_fuel(Seq::filter, 3);
            assert(seq![picture, gap].drop_last() =~= seq![picture]);
            assert(seq![picture].drop_last() =~= Seq::<Piece>::empty());
        }
        Seq::filter_distributes_over_add(seq![first], rest, inside);
        assert(seq![first] + rest =~= emotes);
        assert(seq![first].filter(inside) =~= seq![first]) by {
            reveal_with_fuel(Seq::filter, 2);
        }
        assert(pictures(emote_pieces(text, emotes, from)) =~= seq![picture] + pictures(after));
        assert(starting_before(emotes, text.len()) =~= seq![first] + starting_before(
            rest,
            text.len(),
        ));
        assert(emote_pictures(starting_before(emotes, text.len())) =~= seq![picture]
            + emote_pictures(starting_before(rest, text.len())));
    }
}

/// A message shows each emote that starts inside its text once, in the order of
/// the starts, and no other picture.
pub proof fn law_each_emote_is_shown_once(text: Seq<char>, emotes: Seq<Emote>)
    ensures
        pictures(message_pieces(text, emotes)) == emote_pictures(
            starting_before(by_start(emotes), text.len()),
        ),
{
    law_by_start_is_a_stable_order(emotes);
    lemma_emote_pictures(text, by_start(emotes), 0);
    if emote_pieces(text, by_start(emotes), 0).len() == 0 {
        lemma_no_pictures(emote_pieces(text, by_start(emotes), 0));
        lemma_no_pictures(seq![text_piece(text)]);
    }
}

/// A message always shows something, and without emotes it shows its words.
pub proof fn law_message_without_emotes(text: Seq<char>, emotes: Seq<Emote>)
    ensures
        message_pieces(text, emotes).len() > 0,
        emotes.len() == 0 && words(text).len() > 0 ==> message_pieces(text, emotes)
            == word_pieces(text),
        emotes.len() == 0 && words(text).len() == 0 ==> message_pieces(text, emotes)
            == seq![text_piece(text)],
{
    assert(text.skip(0) =~= text);
    if text.len() == 0 {
        assert(word_pieces(text) =~= Seq::<Piece>::empty());
    }
}

proof fn lemma_few_pieces(text: Seq<char>, emotes: Seq<Emote>, from: int)
    requires
        0 <= from,
    ensures
        emote_pieces(text, emotes, from).len() <= (emotes.len() + 1) * (text.len() + 2),
    decreases emotes.len(),
{
    if emotes.len() == 0 || emotes[0].char_range.start >= text.len() {
        if from < text.len() {
            law_words_are_words(text.skip(from));
        }
        assert(1 * (text.len() + 2) <= (emotes.len() + 1) * (text.len() + 2))
            by (nonlinear_arith);
    } else {
        let start = emotes[0].char_range.start as int;
        let end = emotes[0].char_range.end as int;
        if start > from {
            law_words_are_words(text.subrange(from, start));
        }
        lemma_few_pieces(
            text,
            emotes.skip(1),
            if end < text.len() {
                end
            } else {
                text.len() as int
            },
        );
        let n = emotes.len() as int;
        let m = text.len() as int;
        assert(n * (m + 2) + (m + 2) == (n + 1) * (m + 2)) by (nonlinear_arith);
    }
}

/// For each emote, and once more behind the last, a message shows no more pieces than
/// its text has characters, and two more.
pub proof fn law_few_pieces(text: Seq<char>, emotes: Seq<Emote>)
    ensures
        message_pieces(text, emotes).len() <= (emotes.len() + 1) * (text.len() + 2),
{
    law_by_start_is_a_stable_order(emotes);
    lemma_few_pieces(text, by_start(emotes), 0);
    assert(1 <= (emotes.len() + 1) * (text.len() + 2)) by (nonlinear_arith);
}

/// Whether the segments of a Twitch message can be numbered.
pub fn can_create_segments(message_text: &str, emotes: &[Emote]) -> (r: bool)
    ensures
        r == (message_pieces(message_text@, emotes@).len() <= i32::MAX),
{
    let ghost text = message_text@;
    let chars = chars_of(message_text);
    let sorted_emotes = sort_by_start(emotes);
    let ghost sorted = by_start(emotes@);
    let ghost all = emote_pieces(text, sorted, 0).len();
    let mut room: usize = i32::MAX as usize;
    let mut start_index: usize = 0;
    let mut i: usize = 0;
    assert(sorted.skip(0) =~= sorted);
    while i < sorted_emotes.len()
        invariant
            chars@ == text,
            text == message_text@,
            sorted == by_start(emotes@),
            all == emote_pieces(text, sorted, 0).len(),
            referred(sorted_emotes@) == sorted,
            i <= sorted.len(),
            start_index <= text.len(),
            room <= i32::MAX,
            i32::MAX - room + emote_pieces(
                text,
                sorted.skip(i as int),
                start_index as int,
            ).len() == all,
        ensures
            start_index <= text.len(),
            room <= i32::MAX,
            i32::MAX - room + (if start_index < text.len() {
                words(text.skip(start_index as int)).len()
            } else {
                0
            }) == all,
        decreases sorted.len() - i,
    {
        let emote = sorted_emotes[i];
        let ghost rest = sorted.skip(i as int);
        assert(sorted[i as int] == *sorted_emotes@[i as int]);
        assert(rest[0] == *emote);
        if emote.char_range.start >= chars.len() {
            break ;
        }
        let emote_end: usize = if emote.char_range.end < chars.len() {
            emote.char_range.end
        } else {
            chars.len()
        };
        let before: usize = if emote.char_range.start > start_index {
            count_words(chars.as_slice(), start_index, emote.char_range.start)
        } else {
            0
        };
        let ghost after = emote_pieces(text, rest.skip(1), emote_end as int).len();
        assert(i32::MAX - room + before + 2 + after == all);
        if before > room || room - before < 2 {
            return false;
        }
        room -= before + 2;
        start_index = emote_end;
        i += 1;
        assert(sorted.skip(i as int) =~= rest.skip(1));
    }
    if start_index < chars.len() {
        assert(text.subrange(start_index as int, text.len() as int) =~= text.skip(
            start_index as int,
        ));
        count_words(chars.as_slice(), start_index, chars.len()) <= room
    } else {
        true
    }
}

/// A badge that is shown beside a user's name.
#[derive(Debug)]
pub struct Badge {
    pub name: String,
    pub version: String,
}

/// Who sent a message.
#[derive(Debug)]
pub struct TwitchUserBasics {
    pub id: String,
    pub login: String,
    pub name: String,
}

/// The color of a user's name.
#[derive(Debug, Clone, Copy, PartialEq, Eq, Structural)]
pub struct RGBColor {
    pub r: u8,
    pub g: u8,
    pub b: u8,
}

/// A message in a channel.
#[derive(Debug)]
pub struct PrivmsgMessage {
    pub message_text: String,
    pub is_action: bool,
    pub sender: TwitchUserBasics,
    pub badges: Vec<Badge>,
    pub bits: Option<u64>,
    pub name_color: Option<RGBColor>,
    pub emotes: Vec<Emote>,
    pub message_id: String,
    pub server_timestamp: Timestamp,
}

/// What the Twitch server sends.
#[derive(Debug)]
pub enum ServerMessage {
    Privmsg(PrivmsgMessage),
    Other,
}

/// Whether a badge of that name is among `badges`.
pub open spec fn has_badge(badges: Seq<Badge>, name: Seq<char>) -> bool {
    exists|i: int| 0 <= i < badges.len() && (#[trigger] badges[i]).name@ == name
}

/// The badges as texts, each with its name and its version.
pub open spec fn badge_texts(badges: Seq<Badge>) -> Seq<Seq<char>> {
    badges.map_values(|b: Badge| b.name@ + "/"@ + b.version@)
}

/// The color that Twitch gives with the components of `color`.
pub open spec fn rgb_color(color: RGBColor) -> RgbColor {
    RgbColor { red: color.r as i32, green: color.g as i32, blue: color.b as i32 }
}

/// The chat message with the number `id` that a message in a channel becomes;
/// `timestamp` is the text of the time at which it was sent.
pub open spec fn chat_message(
    message: PrivmsgMessage,
    id: int,
    timestamp: Seq<char>,
) -> ChatMessageView {
    ChatMessageView {
        id,
        platform: Platform::Twitch {  },
        message_id: Some(message.message_id@),
        display_name: Some(message.sender.name@),
        user: Some(message.sender.login@),
        user_id: Some(message.sender.id@),
        user_color: match message.name_color {
            Some(color) => Some(rgb_color(color)),
            None => None,
        },
        user_badges: badge_texts(message.badges@),
        segments: numbered(message_pieces(message.message_text@, message.emotes@)),
        timestamp,
        is_action: message.is_action,
        is_moderator: has_badge(message.badges@, "moderator"@),
        is_subscriber: has_badge(message.badges@, "subscriber"@),
        is_owner: has_badge(message.badges@, "broadcaster"@),
        bits: match message.bits {
            Some(bits) => Some(decimal_text(bits as nat)),
            None => None,
        },
    }
}

/// Whether the message was sent at a time that has a date, and its segments can be numbered.
pub open spec fn has_chat_message(message: PrivmsgMessage) -> bool {
    &&& message.server_timestamp.wf()
    &&& message_pieces(message.message_text@, message.emotes@).len() <= i32::MAX
}

/// Whether a badge of that name is among `badges`.
fn find_badge(badges: &Vec<Badge>, name: &str) -> (r: bool)
    ensures
        r == has_badge(badges@, name@),
{
    let wanted = name.to_string();
    let mut i: usize = 0;
    while i < badges.len()
        invariant
            i <= badges@.len(),
            wanted@ == name@,
            forall|j: int| 0 <= j < i ==> (#[trigger] badges@[j]).name@ != name@,
        decreases badges@.len() - i,
    {
        if badges[i].name == wanted {
            return true;
        }
        i += 1;
    }
    false
}

/// The badges as texts.
fn describe_badges(badges: &Vec<Badge>) -> (r: Vec<String>)
    ensures
        texts(r@) == badge_texts(badges@),
{
    let mut r: Vec<String> = Vec::new();
    let mut i: usize = 0;
    while i < badges.len()
        invariant
            i <= badges@.len(),
            texts(r@) == badge_texts(badges@).take(i as int),
        decreases badges@.len() - i,
    {
        let mut text = badges[i].name.clone();
        text.append("/");
        text.append(badges[i].version.as_str());
        let ghost before = r@;
        r.push(text);
        i += 1;
        assert(texts(r@) =~= texts(before).push(text@));
        assert(texts(r@) =~= badge_texts(badges@).take(i as int));
    }
    assert(badge_texts(badges@).take(i as int) =~= badge_texts(badges@));
    r
}

/// The chat message with the number `id` that a message in a channel becomes;
/// `timestamp` is the text of the time at which it was sent.
pub fn create_chat_message(message: &PrivmsgMessage, id: i32, timestamp: String) -> (r:
    ChatMessage)
    requires
        message_pieces(message.message_text@, message.emotes@).len() <= i32::MAX,
    ensures
        r@ == chat_message(*message, id as int, timestamp@),
{
    ChatMessage {
        id,
        platform: Platform::Twitch {  },
        message_id: Some(message.message_id.clone()),
        display_name: Some(message.sender.name.clone()),
        user: Some(message.sender.login.clone()),
        user_id: Some(message.sender.id.clone()),
        user_color: match message.name_color {
            Some(color) => Some(
                RgbColor { red: color.r as i32, green: color.g as i32, blue: color.b as i32 },
            ),
            None => None,
        },
        user_badges: describe_badges(&message.badges),
        segments: create_segments(message.message_text.as_str(), message.emotes.as_slice()),
        timestamp,
        is_action: message.is_action,
        is_moderator: find_badge(&message.badges, "moderator"),
        is_subscriber: find_badge(&message.badges, "subscriber"),
        is_owner: find_badge(&message.badges, "broadcaster"),
        bits: match message.bits {
            Some(bits) => Some(decimal(bits)),
            None => None,
        },
    }
}

/// Whether the message was sent at a time that has a date, and its segments can be numbered.
pub fn can_create_chat_message(message: &PrivmsgMessage) -> (r: bool)
    ensures
        r == has_chat_message(*message),
{
    let time = message.server_timestamp;
    Timestamp::new(time.seconds, time.nanos).is_some() && can_create_segments(
        message.message_text.as_str(),
        message.emotes.as_slice(),
    )
}

/// Stores what the Twitch server sends, if it is a chat message, and gives the
/// request that sends it to the streamer.
pub fn handle_message(state: &mut StreamerState, message: &ServerMessage) -> (r: Option<Outgoing>)
    requires
        old(state)@.wf(),
        message matches ServerMessage::Privmsg(message) ==> {
            &&& has_chat_message(*message)
            &&& old(state)@.chat_message_id < i32::MAX
            &&& old(state)@.request_id < i32::MAX
        },
    ensures
        final(state)@.wf(),
        match message {
            ServerMessage::Privmsg(message) => {
                let numbered = old(state)@.next_chat_message();
                let chat = chat_message(
                    *message,
                    numbered.chat_message_id,
                    message.server_timestamp.text(),
                );
                &&& final(state)@ == numbered.append(chat)
                &&& outgoing_view(r) == numbered.request(false, seq![chat])
            },
            ServerMessage::Other => final(state)@ == old(state)@ && r is None,
        },
{
    match message {
        ServerMessage::Privmsg(message) => {
            let id: i32 = state.next_chat_message_id();
            let timestamp = message.server_timestamp.to_rfc3339();
            let chat = create_chat_message(message, id, timestamp);
            state.append_chat_message(chat)
        },
        ServerMessage::Other => None,
    }
}

} // verus!
