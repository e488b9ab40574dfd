//! Chat messages as numbered segments of text and pictures.

use vstd::prelude::*;

use crate::protocol::{optional_text, segment_views, ChatPostSegment, SegmentView};
use crate::text::{split_words, texts, words};

verus! {

/// What a segment shows, apart from its number.
#[verifier::ext_equal]
pub struct Piece {
    pub text: Option<Seq<char>>,
    pub url: Option<Seq<char>>,
}

/// A piece of text.
pub open spec fn text_piece(text: Seq<char>) -> Piece {
    Piece { text: Some(text), url: None }
}

/// A picture at an address.
pub open spec fn picture_piece(url: Seq<char>) -> Piece {
    Piece { text: None, url: Some(url) }
}

/// A piece for each word of `text`, the word with a space behind it.
pub open spec fn word_pieces(text: Seq<char>) -> Seq<Piece> {
    words(text).map_values(|word: Seq<char>| text_piece(word.push(' ')))
}

/// The segments that show `pieces`, numbered from zero.
pub open spec fn numbered(pieces: Seq<Piece>) -> Seq<SegmentView> {
    Seq::new(
        pieces.len(),
        |i: int| SegmentView { id: i, text: pieces[i].text, url: pieces[i].url },
    )
}

/// What `segments` show.
pub open spec fn pieces_of(segments: Seq<ChatPostSegment>) -> Seq<Piece> {
    segments.map_values(
        |s: ChatPostSegment| Piece { text: optional_text(s.text), url: optional_text(s.url) },
    )
}

/// Whether each segment's number is its position.
pub open spec fn in_order(segments: Seq<ChatPostSegment>) -> bool {
    forall|i: int| 0 <= i < segments.len() ==> (#[trigger] segments[i]).id == i
}

/// Segments in order are determined by what they show.
pub proof fn lemma_in_order(segments: Seq<ChatPostSegment>)
    requires
        in_order(segments),
    ensures
        segment_views(segments) == numbered(pieces_of(segments)),
{
    assert(segment_views(segments) =~= numbered(pieces_of(segments)));
}

/// There is a segment for each piece, in order, which shows what the piece shows, and its
/// number is how many stand before it.
pub proof fn law_segments_are_numbered(pieces: Seq<Piece>)
    ensures
        numbered(pieces).len() == pieces.len(),
        forall|i: int|
            0 <= i < pieces.len() ==> {
                let segment = #[trigger] numbered(pieces)[i];
                segment.id == i && segment.text == pieces[i].text && segment.url == pieces[i].url
            },
{
}

/// There is a piece for each word of a text, in order: the word and a space, and no picture.
pub proof fn law_words_become_pieces(text: Seq<char>)
    ensures
        word_pieces(text).len() == words(text).len(),
        forall|i: int|
            0 <= i < words(text).len() ==> {
                let piece = #[trigger] word_pieces(text)[i];
                piece.url is None && piece.text == Some(words(text)[i] + seq![' '])
            },
{
    assert forall|i: int| 0 <= i < words(text).len() implies {
        let piece = #[trigger] word_pieces(text)[i];
        piece.url is None && piece.text == Some(words(text)[i] + seq![' '])
    } by {
        assert(words(text)[i].push(' ') =~= words(text)[i] + seq![' ']);
    }
}

/// Segments are as many as their contents, and show what they hold.
pub proof fn law_segment_views(segments: Seq<ChatPostSegment>)
    ensures
        segment_views(segments).len() == segments.len(),
        forall|i: int|
            0 <= i < segments.len() ==> {
                let content = #[trigger] segment_views(segments)[i];
                &&& content.id == segments[i].id
                &&& content.text is Some <==> segments[i].text is Some
                &&& segments[i].text matches Some(text) ==> content.text == Some(text@)
                &&& content.url is Some <==> segments[i].url is Some
                &&& segments[i].url matches Some(url) ==> content.url == Some(url@)
            },
{
}

/// Appends a segment with the next number.
pub fn push_segment(
    segments: &mut Vec<ChatPostSegment>,
    text: Option<String>,
    url: Option<String>,
)
    requires
        in_order(old(segments)@),
        old(segments)@.len() < i32::MAX,
    ensures
        in_order(final(segments)@),
        pieces_of(final(segments)@) == pieces_of(old(segments)@).push(
            Piece { text: optional_text(text), url: optional_text(url) },
        ),
{
    let id: i32 = segments.len() as i32;
    segments.push(ChatPostSegment { id, text, url });
    assert(pieces_of(segments@) =~= pieces_of(old(segments)@).push(
        Piece { text: optional_text(text), url: optional_text(url) },
    ));
}

/// Appends a segment for each word of the characters from `from` to before `to`.
pub fn push_words(
    segments: &mut Vec<ChatPostSegment>,
    chars: &[char],
    from: usize,
    to: usize,
)
    requires
        from <= to <= chars@.len(),
        in_order(old(segments)@),
        old(segments)@.len() + words(chars@.subrange(from as int, to as int)).len() <= i32::MAX,
    ensures
        in_order(final(segments)@),
        pieces_of(final(segments)@) == pieces_of(old(segments)@) + word_pieces(
            chars@.subrange(from as int, to as int),
        ),
{
    let ghost text = chars@.subrange(from as int, to as int);
    let split = split_words(chars, from, to);
    let mut i: usize = 0;
    assert(word_pieces(text).take(0) =~= Seq::<Piece>::empty());
    assert(pieces_of(segments@) + word_pieces(text).take(0) =~= pieces_of(segments@));
    while i < split.len()
        invariant
            i <= split@.len(),
            texts(split@) == words(text),
            in_order(segments@),
            old(segments)@.len() + words(text).len() <= i32::MAX,
            segments@.len() == old(segments)@.len() + i,
            pieces_of(segments@) == pieces_of(old(segments)@) + word_pieces(text).take(i as int),
        decreases split@.len() - i,
    {
        let mut word = split[i].clone();
        word.push(' ');
        assert(texts(split@)[i as int] == split@[i as int]@);
        assert(word_pieces(text)[i as int] == text_piece(word@));
        assert(word_pieces(text).take(i + 1) =~= word_pieces(text).take(i as int).push(
            text_piece(word@),
        ));
        push_segment(segments, Some(word), None);
        i += 1;
        assert(pieces_of(segments@) =~= pieces_of(old(segments)@) + word_pieces(text).take(
            i as int,
        ));
        assert(segments@.len() == pieces_of(segments@).len());
    }
    assert(word_pieces(text).take(i as int) =~= word_pieces(text));
}

} // verus!
