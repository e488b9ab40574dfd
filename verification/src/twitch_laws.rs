//! What holds of chat messages from Twitch.

use vstd::prelude::*;

use crate::protocol::{ChatMessageView, Platform};
use crate::segments::{law_words_become_pieces, numbered, word_pieces, Piece};
use crate::text::{
    decimal_value, is_white_space, law_decimal_text_reads_back, law_words_are_words,
    law_words_keep_all_but_white_space, words,
};
use crate::time::has_date;
use crate::twitch::{
    by_start, chat_message, emote_address, emote_pieces, has_chat_message, insert_by_start,
    law_by_start_is_a_stable_order, message_pieces, starts_ascend, Emote, PrivmsgMessage,
};

verus! {

/// Whether the character at `i` stands for an emote.
pub open spec fn is_covered(emotes: Seq<Emote>, i: int) -> bool {
    exists|k: int|
        0 <= k < emotes.len() && (#[trigger] emotes[k]).char_range.start <= i
            < emotes[k].char_range.end
}

/// The characters of `text` from `from` on that stand for no emote.
pub open spec fn uncovered(text: Seq<char>, emotes: Seq<Emote>, from: int) -> Seq<char>
    decreases text.len() - from,
{
    if from < 0 || from >= text.len() {
        seq![]
    } else if is_covered(emotes, from) {
        uncovered(text, emotes, from + 1)
    } else {
        seq![text[from]] + uncovered(text, emotes, from + 1)
    }
}

/// The characters of a text other than whitespace.
pub open spec fn letters(text: Seq<char>) -> Seq<char> {
    text.filter(|c: char| !is_white_space(c))
}

/// The characters other than whitespace in the texts of `pieces`.
pub open spec fn shown_letters(pieces: Seq<Piece>) -> Seq<char>
    decreases pieces.len(),
{
    if pieces.len() == 0 {
        seq![]
    } else {
        (match pieces[0].text {
            Some(text) => letters(text),
            None => seq![],
        }) + shown_letters(pieces.skip(1))
    }
}

/// Whether no emote stands behind the end of a text of `len` characters, or for no character.
pub open spec fn lie_inside(emotes: Seq<Emote>, len: nat) -> bool {
    forall|i: int|
        0 <= i < emotes.len() ==> (#[trigger] emotes[i]).char_range.start
            < emotes[i].char_range.end <= len
}

/// Whether `a` ends before `b` starts, or the other way round.
pub open spec fn are_apart(a: Emote, b: Emote) -> bool {
    a.char_range.end <= b.char_range.start || b.char_range.end <= a.char_range.start
}

/// Whether no two emotes stand for the same character.
pub open spec fn do_not_overlap(emotes: Seq<Emote>) -> bool {
    forall|i: int, j: int|
        0 <= i < j < emotes.len() ==> #[trigger] are_apart(emotes[i], emotes[j])
}

proof fn lemma_letters_add(a: Seq<char>, b: Seq<char>)
    ensures
        letters(a + b) == letters(a) + letters(b),
{
    Seq::filter_distributes_over_add(a, b, |c: char| !is_white_space(c));
}

proof fn lemma_letters_of_word(word: Seq<char>)
    requires
        forall|i: int| 0 <= i < word.len() ==> !is_white_space(#[trigger] word[i]),
    ensures
        letters(word) == word,
    decreases word.len(),
{
    reveal(Seq::filter);
    if word.len() > 0 {
        let front = word.drop_last();
        assert forall|i: int| 0 <= i < front.len() implies !is_white_space(#[trigger] front[i]) by {
            assert(front[i] == word[i]);
        }
        lemma_letters_of_word(front);
        assert(!is_white_space(word[word.len() - 1]));
        assert(front.push(word.last()) =~= word);
    } else {
        assert(letters(word) =~= word);
    }
}

proof fn lemma_letters_of_space()
    ensures
        letters(seq![' ']) == Seq::<char>::empty(),
        letters(Seq::<char>::empty()) == Seq::<char>::empty(),
{
    reveal_with_fuel(Seq::filter, 3);
    assert(seq![' '].drop_last() =~= Seq::<char>::empty());
    assert(letters(seq![' ']) =~= Seq::<char>::empty());
    assert(letters(Seq::<char>::empty()) =~= Seq::<char>::empty());
}

proof fn lemma_shown_letters_add(a: Seq<Piece>, b: Seq<Piece>)
    ensures
        shown_letters(a + b) == shown_letters(a) + shown_letters(b),
    decreases a.len(),
{
    if a.len() == 0 {
        assert(a + b =~= b);
        assert(shown_letters(a) + shown_letters(b) =~= shown_letters(b));
    } else {
        lemma_shown_letters_add(a.skip(1), b);
        assert((a + b).skip(1) =~= a.skip(1) + b);
        assert((a + b)[0] == a[0]);
        assert(shown_letters(a + b) =~= shown_letters(a) + shown_letters(b));
    }
}

proof fn lemma_letters_of_words(pieces: Seq<Piece>, split: Seq<Seq<char>>)
    requires
        pieces.len() == split.len(),
        forall|i: int|
            0 <= i < pieces.len() ==> (#[trigger] pieces[i]).text == Some(split[i] + seq![' ']),
        forall|i: int, j: int|
            0 <= i < split.len() && 0 <= j < split[i].len() ==> !is_white_space(
                #[trigger] split[i][j],
            ),
    ensures
        shown_letters(pieces) == split.flatten(),
    decreases split.len(),
{
    if split.len() > 0 {
        let rest = split.skip(1);
        assert forall|i: int| 0 <= i < rest.len() implies (#[trigger] pieces.skip(1)[i]).text
            == Some(rest[i] + seq![' ']) by {
            assert(pieces.skip(1)[i] == pieces[i + 1]);
        }
        assert forall|i: int, j: int|
            0 <= i < rest.len() && 0 <= j < rest[i].len() implies !is_white_space(
            #[trigger] rest[i][j],
        ) by {
            assert(rest[i] == split[i + 1]);
        }
        lemma_letters_of_words(pieces.skip(1), rest);
        assert forall|j: int| 0 <= j < split[0].len() implies !is_white_space(
            #[trigger] split[0][j],
        ) by {}
        lemma_letters_of_word(split[0]);
        lemma_letters_of_space();
        lemma_letters_add(split[0], seq![' ']);
        assert(pieces[0].text == Some(split[0] + seq![' ']));
        assert(split[0] + Seq::<char>::empty() =~= split[0]);
        assert(split.drop_first() =~= rest);
    }
}

proof fn lemma_letters_of_word_pieces(text: Seq<char>)
    ensures
        shown_letters(word_pieces(text)) == letters(text),
{
    law_words_are_words(text);
    law_words_become_pieces(text);
    lemma_letters_of_words(word_pieces(text), words(text));
    law_words_keep_all_but_white_space(text);
}

proof fn lemma_uncovered_run(text: Seq<char>, emotes: Seq<Emote>, from: int, to: int)
    requires
        0 <= from <= to <= text.len(),
        forall|i: int| from <= i < to ==> !is_covered(emotes, i),
    ensures
        uncovered(text, emotes, from) == text.subrange(from, to) + uncovered(text, emotes, to),
    decreases to - from,
{
    if from < to {
        lemma_uncovered_run(text, emotes, from + 1, to);
        assert(!is_covered(emotes, from));
        assert(text.subrange(from, to) =~= seq![text[from]] + text.subrange(from + 1, to));
        assert(uncovered(text, emotes, from) =~= text.subrange(from, to) + uncovered(
            text,
            emotes,
            to,
        ));
    } else {
        assert(text.subrange(from, to) =~= Seq::<char>::empty());
        assert(uncovered(text, emotes, from) =~= text.subrange(from, to) + uncovered(
            text,
            emotes,
            to,
        ));
    }
}

proof fn lemma_covered_run(text: Seq<char>, emotes: Seq<Emote>, from: int, to: int)
    requires
        0 <= from <= to <= text.len(),
        forall|i: int| from <= i < to ==> is_covered(emotes, i),
    ensures
        uncovered(text, emotes, from) == uncovered(text, emotes, to),
    decreases to - from,
{
    if from < to {
        assert(is_covered(emotes, from));
        lemma_covered_run(text, emotes, from + 1, to);
    }
}

proof fn lemma_same_cover(text: Seq<char>, a: Seq<Emote>, b: Seq<Emote>, from: int)
    requires
        0 <= from,
        forall|i: int| from <= i ==> is_covered(a, i) == is_covered(b, i),
    ensures
        uncovered(text, a, from) == uncovered(text, b, from),
    decreases text.len() - from,
{
    if from < text.len() {
        lemma_same_cover(text, a, b, from + 1);
        assert(is_covered(a, from) == is_covered(b, from));
    }
}

proof fn lemma_rest(emotes: Seq<Emote>, len: nat)
    requires
        emotes.len() > 0,
        lie_inside(emotes, len),
        do_not_overlap(emotes),
        starts_ascend(emotes),
    ensures
        lie_inside(emotes.skip(1), len),
        do_not_overlap(emotes.skip(1)),
        starts_ascend(emotes.skip(1)),
        forall|k: int|
            0 <= k < emotes.len() - 1 ==> emotes[0].char_range.end <= (
            #[trigger] emotes.skip(1)[k]).char_range.start,
{
    let rest = emotes.skip(1);
    assert forall|i: int, j: int| 0 <= i < j < rest.len() implies #[trigger] are_apart(
        rest[i],
        rest[j],
    ) by {
        assert(are_apart(emotes[i + 1], emotes[j + 1]));
    }
    assert forall|i: int, j: int| 0 <= i <= j < rest.len() implies (
    #[trigger] rest[i]).char_range.start <= (#[trigger] rest[j]).char_range.start by {
        assert(rest[i] == emotes[i + 1]);
        assert(rest[j] == emotes[j + 1]);
    }
    assert forall|k: int| 0 <= k < rest.len() implies emotes[0].char_range.end <= (
    #[trigger] rest[k]).char_range.start by {
        assert(rest[k] == emotes[k + 1]);
        assert(are_apart(emotes[0], emotes[k + 1]));
        assert(emotes[0].char_range.start <= emotes[k + 1].char_range.start);
    }
}

proof fn lemma_uncovered_rest(text: Seq<char>, emotes: Seq<Emote>, from: int)
    requires
        emotes.len() > 0,
        lie_inside(emotes, text.len()),
        starts_ascend(emotes),
        0 <= from <= emotes[0].char_range.start,
    ensures
        uncovered(text, emotes, from) == text.subrange(from, emotes[0].char_range.start as int)
            + uncovered(text, emotes.skip(1), emotes[0].char_range.end as int),
{
    let start = emotes[0].char_range.start as int;
    let end = emotes[0].char_range.end as int;
    let rest = emotes.skip(1);
    assert forall|i: int| from <= i < start implies !is_covered(emotes, i) by {
        assert forall|k: int| 0 <= k < emotes.len() implies start <= (
        #[trigger] emotes[k]).char_range.start by {
            assert(emotes[0].char_range.start <= emotes[k].char_range.start);
        }
    }
    lemma_uncovered_run(text, emotes, from, start);
    assert forall|i: int| start <= i < end implies is_covered(emotes, i) by {
        assert(emotes[0].char_range.start <= i < emotes[0].char_range.end);
    }
    lemma_covered_run(text, emotes, start, end);
    assert forall|i: int| end <= i implies is_covered(emotes, i) == is_covered(rest, i) by {
        if is_covered(emotes, i) {
            let k = choose|k: int|
                0 <= k < emotes.len() && (#[trigger] emotes[k]).char_range.start <= i
                    < emotes[k].char_range.end;
            assert(rest[k - 1] == emotes[k]);
        }
        if is_covered(rest, i) {
            let k = choose|k: int|
                0 <= k < rest.len() && (#[trigger] rest[k]).char_range.start <= i
                    < rest[k].char_range.end;
            assert(emotes[k + 1] == rest[k]);
        }
    }
    lemma_same_cover(text, emotes, rest, end);
}

proof fn lemma_letters_of_picture_and_gap(shown: Seq<Piece>)
    requires
        shown.len() == 2,
        shown[0].text is None,
        shown[1].text == Some(Seq::<char>::empty()),
    ensures
        shown_letters(shown) == Seq::<char>::empty(),
{
    lemma_letters_of_space();
    reveal_with_fuel(shown_letters, 3);
    assert(shown.skip(1)[0] == shown[1]);
    assert(shown.skip(1).skip(1) =~= Seq::<Piece>::empty());
    assert(shown_letters(shown) =~= Seq::<char>::empty());
}

proof fn lemma_shown_rest(text: Seq<char>, emotes: Seq<Emote>, from: int)
    requires
        emotes.len() > 0,
        lie_inside(emotes, text.len()),
        0 <= from <= emotes[0].char_range.start,
    ensures
        shown_letters(emote_pieces(text, emotes, from)) == letters(
            text.subrange(from, emotes[0].char_range.start as int),
        ) + shown_letters(emote_pieces(text, emotes.skip(1), emotes[0].char_range.end as int)),
{
    let start = emotes[0].char_range.start as int;
    let end = emotes[0].char_range.end as int;
    let gap = text.subrange(from, start);
    let all = emote_pieces(text, emotes, from);
    let after = emote_pieces(text, emotes.skip(1), end);
    let before = if start > from {
        word_pieces(gap)
    } else {
        seq![]
    };
    let shown = all.subrange(before.len() as int, before.len() as int + 2);
    assert(all =~= before + shown + after);
    lemma_shown_letters_add(before + shown, after);
    lemma_shown_letters_add(before, shown);
    lemma_letters_of_word_pieces(gap);
    lemma_letters_of_space();
    if start == from {
        assert(gap =~= Seq::<char>::empty());
    }
    assert(shown_letters(before) =~= letters(gap));
    lemma_letters_of_picture_and_gap(shown);
    assert(letters(gap) + Seq::<char>::empty() =~= letters(gap));
}

proof fn lemma_shown_letters(text: Seq<char>, emotes: Seq<Emote>, from: int)
    requires
        0 <= from <= text.len(),
        lie_inside(emotes, text.len()),
        do_not_overlap(emotes),
        starts_ascend(emotes),
        emotes.len() > 0 ==> from <= emotes[0].char_range.start,
    ensures
        shown_letters(emote_pieces(text, emotes, from)) == letters(uncovered(text, emotes, from)),
    decreases emotes.len(),
{
    if emotes.len() == 0 {
        assert forall|i: int| from <= i < text.len() implies !is_covered(emotes, i) by {}
        lemma_uncovered_run(text, emotes, from, text.len() as int);
        assert(text.subrange(from, text.len() as int) =~= text.skip(from));
        assert(uncovered(text, emotes, from) =~= text.skip(from));
        lemma_letters_of_word_pieces(text.skip(from));
        if from == text.len() {
            assert(text.skip(from) =~= Seq::<char>::empty());
            lemma_letters_of_space();
        }
    } else {
        let end = emotes[0].char_range.end as int;
        let rest = emotes.skip(1);
        lemma_rest(emotes, text.len());
        if rest.len() > 0 {
            assert(end <= rest[0].char_range.start);
        }
        lemma_shown_letters(text, rest, end);
        lemma_uncovered_rest(text, emotes, from);
        lemma_shown_rest(text, emotes, from);
        lemma_letters_add(
            text.subrange(from, emotes[0].char_range.start as int),
            uncovered(text, rest, end),
        );
    }
}

proof fn lemma_insert_keeps(emotes: Seq<Emote>, emote: Emote, len: nat)
    requires
        lie_inside(emotes.push(emote), len),
        do_not_overlap(emotes.push(emote)),
    ensures
        lie_inside(insert_by_start(emotes, emote), len),
        do_not_overlap(insert_by_start(emotes, emote)),
        forall|e: Emote|
            insert_by_start(emotes, emote).contains(e) <==> #[trigger] emotes.push(
                emote,
            ).contains(e),
    decreases emotes.len(),
{
    let both = emotes.push(emote);
    if emotes.len() > 0 && emotes.last().char_range.start > emote.char_range.start {
        let front = emotes.drop_last();
        let last = emotes.last();
        let inserted = insert_by_start(front, emote);
        let r = inserted.push(last);
        let some = front.push(emote);
        assert forall|i: int| 0 <= i < some.len() implies (#[trigger] some[i]).char_range.start
            < some[i].char_range.end <= len by {
            if i < front.len() {
                assert(some[i] == both[i]);
            } else {
                assert(some[i] == both[both.len() - 1]);
            }
        }
        assert forall|i: int, j: int| 0 <= i < j < some.len() implies #[trigger] are_apart(
            some[i],
            some[j],
        ) by {
            if j < front.len() {
                assert(are_apart(both[i], both[j]));
            } else {
                assert(are_apart(both[i], both[both.len() - 1]));
            }
        }
        lemma_insert_keeps(front, emote, len);
        assert(both[emotes.len() - 1] == last);
        assert forall|i: int, j: int| 0 <= i < j < r.len() implies #[trigger] are_apart(
            r[i],
            r[j],
        ) by {
            if j < inserted.len() {
                assert(are_apart(inserted[i], inserted[j]));
            } else {
                let e = inserted[i];
                assert(inserted.contains(e));
                assert(some.contains(e));
                let k = choose|k: int| 0 <= k < some.len() && some[k] == e;
                if k < front.len() {
                    assert(are_apart(both[k], both[emotes.len() - 1]));
                } else {
                    assert(are_apart(both[emotes.len() - 1], both[both.len() - 1]));
                }
            }
        }
        assert forall|i: int| 0 <= i < r.len() implies (#[trigger] r[i]).char_range.start
            < r[i].char_range.end <= len by {
            if i < inserted.len() {
                assert(r[i] == inserted[i]);
            } else {
                assert(r[i] == both[emotes.len() - 1]);
            }
        }
        assert forall|e: Emote| r.contains(e) <==> #[trigger] both.contains(e) by {
            assert(inserted.contains(e) <==> some.contains(e));
            if r.contains(e) {
                let k = choose|k: int| 0 <= k < r.len() && r[k] == e;
                if k < inserted.len() {
                    assert(inserted[k] == e);
                    let q = choose|q: int| 0 <= q < some.len() && some[q] == e;
                    if q < front.len() {
                        assert(both[q] == e);
                    } else {
                        assert(both[both.len() - 1] == e);
                    }
                } else {
                    assert(both[emotes.len() - 1] == e);
                }
            }
            if both.contains(e) {
                let k = choose|k: int| 0 <= k < both.len() && both[k] == e;
                if k < front.len() {
                    assert(some[k] == e);
                    let q = choose|q: int| 0 <= q < inserted.len() && inserted[q] == e;
                    assert(r[q] == e);
                } else if k == front.len() {
                    assert(r[inserted.len() as int] == e);
                } else {
                    assert(some[front.len() as int] == e);
                    let q = choose|q: int| 0 <= q < inserted.len() && inserted[q] == e;
                    assert(r[q] == e);
                }
            }
        }
    }
}

proof fn lemma_order_keeps(emotes: Seq<Emote>, len: nat)
    requires
        lie_inside(emotes, len),
        do_not_overlap(emotes),
    ensures
        lie_inside(by_start(emotes), len),
        do_not_overlap(by_start(emotes)),
        forall|e: Emote| by_start(emotes).contains(e) <==> #[trigger] emotes.contains(e),
    decreases emotes.len(),
{
    if emotes.len() > 0 {
        let front = emotes.drop_last();
        let last = emotes.last();
        let sorted = by_start(front);
        assert forall|i: int, j: int| 0 <= i < j < front.len() implies #[trigger] are_apart(
            front[i],
            front[j],
        ) by {
            assert(are_apart(emotes[i], emotes[j]));
        }
        lemma_order_keeps(front, len);
        let both = sorted.push(last);
        assert forall|i: int, j: int| 0 <= i < j < both.len() implies #[trigger] are_apart(
            both[i],
            both[j],
        ) by {
            if j < sorted.len() {
                assert(are_apart(sorted[i], sorted[j]));
            } else {
                let e = sorted[i];
                assert(sorted.contains(e));
                assert(front.contains(e));
                let k = choose|k: int| 0 <= k < front.len() && front[k] == e;
                assert(are_apart(emotes[k], emotes[emotes.len() - 1]));
            }
        }
        assert forall|i: int| 0 <= i < both.len() implies (#[trigger] both[i]).char_range.start
            < both[i].char_range.end <= len by {
            if i < sorted.len() {
                assert(both[i] == sorted[i]);
            } else {
                assert(both[i] == emotes[emotes.len() - 1]);
            }
        }
        lemma_insert_keeps(sorted, last, len);
        assert forall|e: Emote| by_start(emotes).contains(e) <==> #[trigger] emotes.contains(
            e,
        ) by {
            assert(by_start(emotes).contains(e) <==> both.contains(e));
            assert(sorted.contains(e) <==> front.contains(e));
            if both.contains(e) {
                let k = choose|k: int| 0 <= k < both.len() && both[k] == e;
                if k < sorted.len() {
                    assert(sorted[k] == e);
                    let q = choose|q: int| 0 <= q < front.len() && front[q] == e;
                    assert(emotes[q] == e);
                } else {
                    assert(emotes[emotes.len() - 1] == e);
                }
            }
            if emotes.contains(e) {
                let k = choose|k: int| 0 <= k < emotes.len() && emotes[k] == e;
                if k < front.len() {
                    assert(front[k] == e);
                    let q = choose|q: int| 0 <= q < sorted.len() && sorted[q] == e;
                    assert(both[q] == e);
                } else {
                    assert(both[sorted.len() as int] == e);
                }
            }
        }
    }
}

/// No letter is lost and none is added: where emotes lie inside a text and do not overlap,
/// the letters that a message shows are those of the text that stand for no emote, in order.
pub proof fn law_letters_outside_emotes_are_shown(text: Seq<char>, emotes: Seq<Emote>)
    requires
        lie_inside(emotes, text.len()),
        do_not_overlap(emotes),
    ensures
        shown_letters(message_pieces(text, emotes)) == letters(uncovered(text, emotes, 0)),
{
    let sorted = by_start(emotes);
    law_by_start_is_a_stable_order(emotes);
    lemma_order_keeps(emotes, text.len());
    lemma_shown_letters(text, sorted, 0);
    assert forall|i: int| 0 <= i implies is_covered(sorted, i) == is_covered(emotes, i) by {
        if is_covered(sorted, i) {
            let k = choose|k: int|
                0 <= k < sorted.len() && (#[trigger] sorted[k]).char_range.start <= i
                    < sorted[k].char_range.end;
            assert(sorted.contains(sorted[k]));
            assert(emotes.contains(sorted[k]));
        }
        if is_covered(emotes, i) {
            let k = choose|k: int|
                0 <= k < emotes.len() && (#[trigger] emotes[k]).char_range.start <= i
                    < emotes[k].char_range.end;
            assert(emotes.contains(emotes[k]));
            assert(sorted.contains(emotes[k]));
        }
    }
    lemma_same_cover(text, sorted, emotes, 0);
    let pieces = emote_pieces(text, sorted, 0);
    if pieces.len() == 0 {
        if emotes.len() > 0 {
            assert(sorted[0].char_range.start < text.len());
        }
        assert forall|i: int| 0 <= i < text.len() implies !is_covered(emotes, i) by {}
        lemma_uncovered_run(text, emotes, 0, text.len() as int);
        assert(uncovered(text, emotes, 0) =~= text);
        let whole = message_pieces(text, emotes);
        assert(whole.skip(1) =~= Seq::<Piece>::empty());
        assert(shown_letters(whole.skip(1)) =~= Seq::<char>::empty());
        assert(shown_letters(whole) =~= letters(text));
    }
}

/// Where the text before the emote at `i` starts: at `from` before the first emote, and
/// else where the emote before it ends, or at the end of the text.
pub open spec fn gap_start(text: Seq<char>, emotes: Seq<Emote>, from: int, i: int) -> int {
    if i == 0 {
        from
    } else if emotes[i - 1].char_range.end < text.len() {
        emotes[i - 1].char_range.end as int
    } else {
        text.len() as int
    }
}

/// The words of `text` between `from` and `to`, none if `to` does not lie behind `from`.
pub open spec fn gap_pieces(text: Seq<char>, from: int, to: int) -> Seq<Piece> {
    if from < to {
        word_pieces(text.subrange(from, to))
    } else {
        seq![]
    }
}

/// The words before the emote at `i`, its picture, and an empty text.
pub open spec fn emote_block(text: Seq<char>, emotes: Seq<Emote>, from: int, i: int) -> Seq<Piece> {
    gap_pieces(text, gap_start(text, emotes, from, i), emotes[i].char_range.start as int) + seq![
        Piece {
            text: None,
            url: Some(
                "https://static-cdn.jtvnw.net/emoticons/v2/"@ + emotes[i].id@
                    + "/default/dark/3.0"@,
            ),
        },
        Piece { text: Some(seq![]), url: None },
    ]
}

proof fn lemma_blocks(text: Seq<char>, emotes: Seq<Emote>, from: int, k: int)
    requires
        0 <= from <= text.len(),
        0 <= k <= emotes.len(),
        forall|i: int| 0 <= i < k ==> (#[trigger] emotes[i]).char_range.start < text.len(),
        k < emotes.len() ==> emotes[k].char_range.start >= text.len(),
    ensures
        emote_pieces(text, emotes, from) == Seq::new(
            k as nat,
            |i: int| emote_block(text, emotes, from, i),
        ).flatten() + gap_pieces(text, gap_start(text, emotes, from, k), text.len() as int),
    decreases k,
{
    let blocks = Seq::new(k as nat, |i: int| emote_block(text, emotes, from, i));
    let tail = gap_pieces(text, gap_start(text, emotes, from, k), text.len() as int);
    if k == 0 {
        assert(text.subrange(from, text.len() as int) =~= text.skip(from));
        assert(blocks.flatten() + tail =~= tail);
    } else {
        assert(emotes[0].char_range.start < text.len());
        let rest = emotes.skip(1);
        let next = gap_start(text, emotes, from, 1);
        assert forall|i: int| 0 <= i < k - 1 implies (#[trigger] rest[i]).char_range.start
            < text.len() by {
            assert(rest[i] == emotes[i + 1]);
        }
        lemma_blocks(text, rest, next, k - 1);
        let others = Seq::new((k - 1) as nat, |i: int| emote_block(text, rest, next, i));
        assert(blocks.drop_first() =~= others) by {
            assert forall|i: int| 0 <= i < k - 1 implies blocks.drop_first()[i] == others[i] by {
                assert(rest[i] == emotes[i + 1]);
                if i > 0 {
                    assert(rest[i - 1] == emotes[i]);
                }
                assert(gap_start(text, rest, next, i) == gap_start(text, emotes, from, i + 1));
            }
        }
        if k > 1 {
            assert(rest[k - 2] == emotes[k - 1]);
        }
        assert(gap_start(text, rest, next, k - 1) == gap_start(text, emotes, from, k));
        assert(blocks.first() == emote_block(text, emotes, from, 0));
        assert(emote_pieces(text, emotes, from) =~= blocks.first() + (others.flatten() + tail));
        assert(blocks.flatten() + tail =~= blocks.first() + (others.flatten() + tail));
    }
}

proof fn lemma_inside_is_a_prefix(emotes: Seq<Emote>, len: nat) -> (k: int)
    requires
        starts_ascend(emotes),
    ensures
        0 <= k <= emotes.len(),
        emotes.filter(|e: Emote| e.char_range.start < len) == emotes.take(k),
        forall|i: int| 0 <= i < k ==> (#[trigger] emotes[i]).char_range.start < len,
        k < emotes.len() ==> emotes[k].char_range.start >= len,
    decreases emotes.len(),
{
    reveal(Seq::filter);
    let inside = |e: Emote| e.char_range.start < len;
    if emotes.len() == 0 {
        assert(emotes.filter(inside) =~= emotes.take(0));
        0
    } else {
        let front = emotes.drop_last();
        assert forall|i: int, j: int| 0 <= i <= j < front.len() implies (
        #[trigger] front[i]).char_range.start <= (#[trigger] front[j]).char_range.start by {
            assert(front[i] == emotes[i]);
            assert(front[j] == emotes[j]);
        }
        let k = lemma_inside_is_a_prefix(front, len);
        assert forall|i: int| 0 <= i < k implies (#[trigger] emotes[i]).char_range.start
            < len by {
            assert(emotes[i] == front[i]);
        }
        if emotes.last().char_range.start < len {
            if k < front.len() {
                assert(front[k].char_range.start >= len);
                assert(emotes[k].char_range.start <= emotes[emotes.len() - 1].char_range.start);
            }
            assert(front.take(k) =~= front);
            assert(emotes.filter(inside) =~= emotes.take(k + 1));
            k + 1
        } else {
            if k < front.len() {
                assert(front[k] == emotes[k]);
            }
            assert(emotes.filter(inside) =~= emotes.take(k));
            k
        }
    }
}

/// A message shows, for each emote that starts inside its text, in the order of the starts,
/// the words between the end of the emote before it and its own start, its picture and an
/// empty text; and behind the last one the words up to the end of the text. A message that
/// would show nothing is shown as it is.
pub proof fn law_words_stand_between_emotes(text: Seq<char>, emotes: Seq<Emote>)
    ensures
        ({
            let shown = by_start(emotes).filter(|e: Emote| e.char_range.start < text.len());
            let pieces = Seq::new(
                shown.len(),
                |i: int| emote_block(text, shown, 0, i),
            ).flatten() + gap_pieces(
                text,
                gap_start(text, shown, 0, shown.len() as int),
                text.len() as int,
            );
            message_pieces(text, emotes) == if pieces.len() == 0 {
                seq![Piece { text: Some(text), url: None }]
            } else {
                pieces
            }
        }),
{
    let sorted = by_start(emotes);
    law_by_start_is_a_stable_order(emotes);
    let k = lemma_inside_is_a_prefix(sorted, text.len());
    let shown = sorted.take(k);
    lemma_blocks(text, sorted, 0, k);
    assert forall|i: int| 0 <= i < k implies emote_block(text, shown, 0, i) == emote_block(
        text,
        sorted,
        0,
        i,
    ) by {
        assert(shown[i] == sorted[i]);
        if i > 0 {
            assert(shown[i - 1] == sorted[i - 1]);
        }
    }
    if k > 0 {
        assert(shown[k - 1] == sorted[k - 1]);
    }
    assert(Seq::new(shown.len(), |i: int| emote_block(text, shown, 0, i)) =~= Seq::new(
        k as nat,
        |i: int| emote_block(text, sorted, 0, i),
    ));
}

/// Pictures of different emotes are at different addresses.
pub proof fn law_emote_addresses_differ(id1: Seq<char>, id2: Seq<char>)
    requires
        emote_address(id1) == emote_address(id2),
    ensures
        id1 == id2,
{
    let prefix = "https://static-cdn.jtvnw.net/emoticons/v2/"@;
    let suffix = "/default/dark/3.0"@;
    let address = prefix + id1 + suffix;
    assert(emote_address(id1).len() == prefix.len() + id1.len() + suffix.len());
    assert(emote_address(id2).len() == prefix.len() + id2.len() + suffix.len());
    assert(address.subrange(prefix.len() as int, (prefix.len() + id1.len()) as int) =~= id1);
    assert((prefix + id2 + suffix).subrange(
        prefix.len() as int,
        (prefix.len() + id2.len()) as int,
    ) =~= id2);
}

/// Whatever else a channel message holds, the chat message names its sender: the name is
/// displayed, the user is the login, and the user's number is the id. It has the number and
/// the time that it is given, and the message's own id.
pub proof fn law_the_sender_is_named(message: PrivmsgMessage, id: int, timestamp: Seq<char>)
    ensures
        ({
            let chat = chat_message(message, id, timestamp);
            &&& chat.display_name == Some(message.sender.name@)
            &&& chat.user == Some(message.sender.login@)
            &&& chat.user_id == Some(message.sender.id@)
            &&& chat.message_id == Some(message.message_id@)
            &&& chat.platform == (Platform::Twitch {  })
            &&& chat.id == id
            &&& chat.timestamp == timestamp
            &&& chat.is_action == message.is_action
        }),
{
}

/// Channel messages that differ only in being an action become chat messages that differ
/// only in that.
pub proof fn law_an_action_differs_in_nothing_else(
    message: PrivmsgMessage,
    is_action: bool,
    id: int,
    timestamp: Seq<char>,
)
    ensures
        chat_message(PrivmsgMessage { is_action, ..message }, id, timestamp) == (ChatMessageView {
            is_action,
            ..chat_message(message, id, timestamp)
        }),
{
}

/// A chat message shows what the text and the emotes of the channel message give, whoever
/// sent it and whatever else it holds.
pub proof fn law_text_and_emotes_are_shown(
    message: PrivmsgMessage,
    other: PrivmsgMessage,
    id: int,
    other_id: int,
    timestamp: Seq<char>,
    other_timestamp: Seq<char>,
)
    requires
        message.message_text@ == other.message_text@,
        message.emotes@ == other.emotes@,
    ensures
        chat_message(message, id, timestamp).segments == chat_message(
            other,
            other_id,
            other_timestamp,
        ).segments,
        chat_message(message, id, timestamp).segments == numbered(
            message_pieces(message.message_text@, message.emotes@),
        ),
{
}

/// The color of a chat message has the components of the sender's color, and there is none
/// if the sender has none.
pub proof fn law_colors_are_kept(message: PrivmsgMessage, id: int, timestamp: Seq<char>)
    ensures
        ({
            let color = chat_message(message, id, timestamp).user_color;
            &&& color is Some <==> message.name_color is Some
            &&& message.name_color matches Some(c) ==> {
                &&& color->0.red == c.r
                &&& color->0.green == c.g
                &&& color->0.blue == c.b
            }
        }),
{
}

/// Every badge is told with its name and version, in order.
pub proof fn law_badges_are_told(message: PrivmsgMessage, id: int, timestamp: Seq<char>)
    ensures
        ({
            let badges = chat_message(message, id, timestamp).user_badges;
            &&& badges.len() == message.badges@.len()
            &&& forall|i: int|
                0 <= i < badges.len() ==> #[trigger] badges[i] == message.badges@[i].name@ + "/"@
                    + message.badges@[i].version@
        }),
{
}

/// A badge makes its owner a moderator, a subscriber or the owner of the channel by its
/// name alone, wherever it stands among the badges.
pub proof fn law_a_badge_counts_anywhere(
    message: PrivmsgMessage,
    i: int,
    id: int,
    timestamp: Seq<char>,
)
    requires
        0 <= i < message.badges@.len(),
    ensures
        ({
            let chat = chat_message(message, id, timestamp);
            let name = message.badges@[i].name@;
            &&& name == "moderator"@ ==> chat.is_moderator
            &&& name == "subscriber"@ ==> chat.is_subscriber
            &&& name == "broadcaster"@ ==> chat.is_owner
        }),
{
    assert(message.badges@[i].name@ == message.badges@[i].name@);
}

/// Nobody is a moderator, a subscriber or the owner of the channel without the badge.
pub proof fn law_nothing_without_a_badge(message: PrivmsgMessage, id: int, timestamp: Seq<char>)
    ensures
        ({
            let chat = chat_message(message, id, timestamp);
            let badges = message.badges@;
            &&& (forall|i: int|
                0 <= i < badges.len() ==> (#[trigger] badges[i]).name@ != "moderator"@)
                ==> !chat.is_moderator
            &&& (forall|i: int|
                0 <= i < badges.len() ==> (#[trigger] badges[i]).name@ != "subscriber"@)
                ==> !chat.is_subscriber
            &&& (forall|i: int|
                0 <= i < badges.len() ==> (#[trigger] badges[i]).name@ != "broadcaster"@)
                ==> !chat.is_owner
        }),
{
}

/// The bits of a chat message are those of the channel message, in decimal notation: they
/// read back as the same number, and there are none if there were none.
pub proof fn law_bits_read_back(message: PrivmsgMessage, id: int, timestamp: Seq<char>)
    ensures
        ({
            let bits = chat_message(message, id, timestamp).bits;
            &&& bits is Some <==> message.bits is Some
            &&& message.bits matches Some(n) ==> {
                &&& decimal_value(bits->0) == n
                &&& forall|i: int| 0 <= i < bits->0.len() ==> '0' <= #[trigger] (bits->0)[i] <= '9'
                &&& bits->0.len() > 0
                &&& (bits->0)[0] == '0' ==> n == 0 && bits->0.len() == 1
            }
        }),
{
    if let Some(n) = message.bits {
        law_decimal_text_reads_back(n as nat);
    }
}

/// A channel message can be taken in exactly if the time at which it was sent has a date and
/// its segments can be numbered, whatever else it holds.
pub proof fn law_which_messages_are_taken_in(message: PrivmsgMessage)
    ensures
        has_chat_message(message) <==> {
            &&& has_date(
                message.server_timestamp.seconds as int,
                message.server_timestamp.nanos as int,
            )
            &&& message_pieces(message.message_text@, message.emotes@).len() <= 2_147_483_647
        },
{
}

} // verus!
