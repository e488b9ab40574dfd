//! Text on its way into chat messages: whitespace, words and decimal numbers.

use vstd::prelude::*;

verus! {

/// The characters with the Unicode property `White_Space`.
pub open spec fn is_white_space(c: char) -> bool {
    ||| '\u{9}' <= c <= '\u{D}'
    ||| c == '\u{20}'
    ||| c == '\u{85}'
    ||| c == '\u{A0}'
    ||| c == '\u{1680}'
    ||| '\u{2000}' <= c <= '\u{200A}'
    ||| c == '\u{2028}'
    ||| c == '\u{2029}'
    ||| c == '\u{202F}'
    ||| c == '\u{205F}'
    ||| c == '\u{3000}'
}

/// `char::is_whitespace` is documented to tell whether a character has the
/// Unicode property `White_Space`; the contract lists those characters.
pub assume_specification[ char::is_whitespace ](c: char) -> (r: bool)
    ensures
        r == is_white_space(c),
;

/// `String::push` is documented to append the character to the end of the text.
pub assume_specification[ String::push ](s: &mut String, c: char)
    ensures
        final(s)@ == old(s)@.push(c),
;

/// A text in lower case.
pub uninterp spec fn lowercase_text(text: Seq<char>) -> Seq<char>;

/// `str::to_lowercase` is documented to give the lower-case equivalent of a text as
/// Unicode defines it. The result depends on the text alone and is given a name.
pub assume_specification[ str::to_lowercase ](text: &str) -> (r: String)
    ensures
        r@ == lowercase_text(text@),
;

/// How many characters `s` starts with before its first whitespace.
pub open spec fn word_len(s: Seq<char>) -> nat
    decreases s.len(),
{
    if s.len() == 0 || is_white_space(s[0]) {
        0
    } else {
        1 + word_len(s.skip(1))
    }
}

/// The words of `s`: its longest runs of characters other than whitespace, in order.
pub open spec fn words(s: Seq<char>) -> Seq<Seq<char>>
    decreases s.len(),
    via words_decreases
{
    if s.len() == 0 {
        seq![]
    } else if is_white_space(s[0]) {
        words(s.skip(1))
    } else {
        seq![s.take(word_len(s) as int)] + words(s.skip(word_len(s) as int))
    }
}

#[via_fn]
proof fn words_decreases(s: Seq<char>) {
    lemma_word_len(s);
}

/// A word ends at whitespace or at the end of the text, and not before.
pub proof fn lemma_word_len(s: Seq<char>)
    ensures
        word_len(s) <= s.len(),
        word_len(s) < s.len() ==> is_white_space(s[word_len(s) as int]),
        forall|i: int| 0 <= i < word_len(s) ==> !is_white_space(#[trigger] s[i]),
        s.len() > 0 && !is_white_space(s[0]) ==> word_len(s) > 0,
    decreases s.len(),
{
    if s.len() > 0 && !is_white_space(s[0]) {
        let rest = s.skip(1);
        lemma_word_len(rest);
        assert forall|i: int| 0 <= i < word_len(s) implies !is_white_space(#[trigger] s[i]) by {
            if i > 0 {
                assert(s[i] == rest[i - 1]);
            }
        }
    }
}

/// Leading whitespace adds no word.
proof fn lemma_skip_white_space(s: Seq<char>, n: int)
    requires
        0 <= n <= s.len(),
        forall|i: int| 0 <= i < n ==> is_white_space(#[trigger] s[i]),
    ensures
        words(s) == words(s.skip(n)),
    decreases n,
{
    if n == 0 {
        assert(s.skip(0) =~= s);
    } else {
        assert(is_white_space(s[0]));
        assert forall|i: int| 0 <= i < n - 1 implies is_white_space(#[trigger] s.skip(1)[i]) by {
            assert(s.skip(1)[i] == s[i + 1]);
        }
        lemma_skip_white_space(s.skip(1), n - 1);
        assert(s.skip(1).skip(n - 1) =~= s.skip(n));
    }
}

/// The first `n` characters of `s` are its first word if they are no whitespace
/// and whitespace or the end of the text follows.
proof fn lemma_first_word(s: Seq<char>, n: int)
    requires
        0 < n <= s.len(),
        forall|i: int| 0 <= i < n ==> !is_white_space(#[trigger] s[i]),
        n < s.len() ==> is_white_space(s[n]),
    ensures
        words(s) == seq![s.take(n)] + words(s.skip(n)),
{
    lemma_word_len(s);
    let len = word_len(s) as int;
    if len < n {
        assert(is_white_space(s[len]));
        assert(false);
    }
    if n < len {
        assert(!is_white_space(s[n]));
        assert(false);
    }
}

/// Splitting a text into words loses its whitespace and nothing else: put
/// together again, the words are the text without its whitespace.
pub proof fn law_words_keep_all_but_white_space(s: Seq<char>)
    ensures
        words(s).flatten() == s.filter(|c: char| !is_white_space(c)),
    decreases s.len(),
{
    let keep = |c: char| !is_white_space(c);
    if s.len() == 0 {
        assert(words(s).flatten() =~= s.filter(keep)) by {
            reveal(Seq::filter);
        }
    } else if is_white_space(s[0]) {
        law_words_keep_all_but_white_space(s.skip(1));
        lemma_filter_split(s, 1, keep);
        assert(s.take(1) =~= seq![s[0]]);
        assert(s.take(1).filter(keep) =~= Seq::<char>::empty()) by {
            reveal_with_fuel(Seq::filter, 2);
            assert(!keep(s.take(1).last()));
        }
        assert(s.filter(keep) =~= s.skip(1).filter(keep));
    } else {
        lemma_word_len(s);
        let n = word_len(s) as int;
        law_words_keep_all_but_white_space(s.skip(n));
        lemma_filter_split(s, n, keep);
        assert forall|i: int| 0 <= i < n implies keep(#[trigger] s.take(n)[i]) by {
            assert(s.take(n)[i] == s[i]);
        }
        lemma_filter_keeps_all(s.take(n), keep);
        let rest = words(s.skip(n));
        assert((seq![s.take(n)] + rest).first() == s.take(n));
        assert((seq![s.take(n)] + rest).drop_first() =~= rest);
    }
}

/// Filtering a text filters its two parts.
proof fn lemma_filter_split(s: Seq<char>, n: int, keep: spec_fn(char) -> bool)
    requires
        0 <= n <= s.len(),
    ensures
        s.filter(keep) == s.take(n).filter(keep) + s.skip(n).filter(keep),
{
    Seq::filter_distributes_over_add(s.take(n), s.skip(n), keep);
    assert(s.take(n) + s.skip(n) =~= s);
}

/// A filter that keeps each element keeps the sequence.
proof fn lemma_filter_keeps_all(s: Seq<char>, keep: spec_fn(char) -> bool)
    requires
        forall|i: int| 0 <= i < s.len() ==> keep(#[trigger] s[i]),
    ensures
        s.filter(keep) == s,
    decreases s.len(),
{
    reveal(Seq::filter);
    if s.len() > 0 {
        let front = s.drop_last();
        assert forall|i: int| 0 <= i < front.len() implies keep(#[trigger] front[i]) by {
            assert(front[i] == s[i]);
        }
        lemma_filter_keeps_all(front, keep);
        assert(keep(s[s.len() - 1]));
        assert(front.push(s.last()) =~= s);
    }
}

/// Every word has at least one character and none that is whitespace, and there
/// are no more words than characters.
pub proof fn law_words_are_words(s: Seq<char>)
    ensures
        words(s).len() <= s.len(),
        forall|i: int| 0 <= i < words(s).len() ==> (#[trigger] words(s)[i]).len() > 0,
        forall|i: int, j: int|
            0 <= i < words(s).len() && 0 <= j < words(s)[i].len() ==> !is_white_space(
                #[trigger] words(s)[i][j],
            ),
    decreases s.len(),
{
    if s.len() == 0 {
    } else if is_white_space(s[0]) {
        law_words_are_words(s.skip(1));
    } else {
        lemma_word_len(s);
        let n = word_len(s) as int;
        let rest = words(s.skip(n));
        law_words_are_words(s.skip(n));
        assert forall|i: int| 0 <= i < words(s).len() implies (#[trigger] words(s)[i]).len()
            > 0 by {
            if i > 0 {
                assert(words(s)[i] == rest[i - 1]);
            }
        }
        assert forall|i: int, j: int|
            0 <= i < words(s).len() && 0 <= j < words(s)[i].len() implies !is_white_space(
            #[trigger] words(s)[i][j],
        ) by {
            if i > 0 {
                assert(words(s)[i] == rest[i - 1]);
            } else {
                assert(words(s)[0] == s.take(n));
                assert(s.take(n)[j] == s[j]);
            }
        }
    }
}

/// Whitespace parts a text: its words are those before the whitespace, and then those
/// behind it.
pub proof fn law_words_part_at_white_space(before: Seq<char>, c: char, behind: Seq<char>)
    requires
        is_white_space(c),
    ensures
        words(before.push(c) + behind) == words(before) + words(behind),
    decreases before.len(),
{
    let s = before.push(c) + behind;
    if before.len() == 0 {
        assert(s.skip(1) =~= behind);
        assert(words(before) + words(behind) =~= words(behind));
    } else if is_white_space(before[0]) {
        law_words_part_at_white_space(before.skip(1), c, behind);
        assert(s.skip(1) =~= before.skip(1).push(c) + behind);
    } else {
        lemma_word_len(before);
        let n = word_len(before) as int;
        assert forall|i: int| 0 <= i < n implies !is_white_space(#[trigger] s[i]) by {
            assert(s[i] == before[i]);
        }
        lemma_first_word(s, n);
        law_words_part_at_white_space(before.skip(n), c, behind);
        assert(s.take(n) =~= before.take(n));
        assert(s.skip(n) =~= before.skip(n).push(c) + behind);
        assert(words(s) =~= words(before) + words(behind));
    }
}

/// A text without whitespace is one word, unless it is empty.
pub proof fn law_text_without_white_space_is_a_word(s: Seq<char>)
    requires
        forall|i: int| 0 <= i < s.len() ==> !is_white_space(#[trigger] s[i]),
    ensures
        words(s) == if s.len() == 0 {
            Seq::<Seq<char>>::empty()
        } else {
            seq![s]
        },
{
    if s.len() > 0 {
        lemma_first_word(s, s.len() as int);
        assert(s.take(s.len() as int) =~= s);
        assert(s.skip(s.len() as int) =~= Seq::<char>::empty());
        assert(words(s) =~= seq![s]);
    }
}

/// The texts of strings are as many as the strings, and each is that of its string.
pub proof fn law_texts_are_what_strings_hold(strings: Seq<String>)
    ensures
        texts(strings).len() == strings.len(),
        forall|i: int| 0 <= i < strings.len() ==> #[trigger] texts(strings)[i] == strings[i]@,
{
}

/// The texts that `strings` hold.
pub open spec fn texts(strings: Seq<String>) -> Seq<Seq<char>> {
    strings.map_values(|s: String| s@)
}

/// The characters of `text`.
pub fn chars_of(text: &str) -> (r: Vec<char>)
    ensures
        r@ == text@,
{
    let mut chars: Vec<char> = Vec::new();
    for c in it: text.chars()
        invariant
            it.seq() == text@,
            chars@ == it.seq().take(it.index() as int),
    {
        chars.push(c);
    }
    assert(text@.take(text@.len() as int) =~= text@);
    chars
}

/// The characters from `from` to before `to` as a text.
pub fn text_between(chars: &[char], from: usize, to: usize) -> (r: String)
    requires
        from <= to <= chars@.len(),
    ensures
        r@ == chars@.subrange(from as int, to as int),
{
    let mut r = String::new();
    let mut i: usize = from;
    while i < to
        invariant
            from <= i <= to <= chars@.len(),
            r@ == chars@.subrange(from as int, i as int),
        decreases to - i,
    {
        r.push(chars[i]);
        i += 1;
        assert(chars@.subrange(from as int, i as int) =~= chars@.subrange(
            from as int,
            i - 1,
        ).push(chars@[i - 1]));
    }
    r
}

/// Where the word that starts at `start` ends, before `to` or there.
fn word_end(chars: &[char], start: usize, to: usize) -> (r: usize)
    requires
        start < to <= chars@.len(),
        !is_white_space(chars@[start as int]),
    ensures
        start < r <= to,
        forall|i: int| start <= i < r ==> !is_white_space(#[trigger] chars@[i]),
        r < to ==> is_white_space(chars@[r as int]),
{
    let mut end: usize = start + 1;
    while end < to && !chars[end].is_whitespace()
        invariant
            start < end <= to <= chars@.len(),
            forall|i: int| start <= i < end ==> !is_white_space(#[trigger] chars@[i]),
        ensures
            start < end <= to,
            forall|i: int| start <= i < end ==> !is_white_space(#[trigger] chars@[i]),
            end < to ==> is_white_space(chars@[end as int]),
        decreases to - end,
    {
        end += 1;
    }
    end
}

/// The words of the characters from `from` to before `to`.
pub fn split_words(chars: &[char], from: usize, to: usize) -> (r: Vec<String>)
    requires
        from <= to <= chars@.len(),
    ensures
        texts(r@) == words(chars@.subrange(from as int, to as int)),
{
    let ghost text = chars@.subrange(from as int, to as int);
    let mut r: Vec<String> = Vec::new();
    let mut start: usize = from;
    assert(text.skip(0) =~= text);
    while start < to
        invariant
            from <= start <= to <= chars@.len(),
            text == chars@.subrange(from as int, to as int),
            texts(r@) + words(text.skip(start - from)) == words(text),
        decreases to - start,
    {
        let ghost at = text.skip(start - from);
        if chars[start].is_whitespace() {
            proof {
                lemma_skip_white_space(at, 1);
                assert(at.skip(1) =~= text.skip(start + 1 - from));
            }
            start += 1;
        } else {
            let end: usize = word_end(chars, start, to);
            let word = text_between(chars, start, end);
            proof {
                let n = end - start;
                assert forall|i: int| 0 <= i < n implies !is_white_space(#[trigger] at[i]) by {
                    assert(at[i] == chars@[start + i]);
                }
                lemma_first_word(at, n);
                assert(at.take(n) =~= word@);
                assert(at.skip(n) =~= text.skip(end - from));
                assert(texts(r@.push(word)) =~= texts(r@).push(word@));
                assert(texts(r@) + words(at) =~= texts(r@.push(word)) + words(
                    text.skip(end - from),
                ));
            }
            r.push(word);
            start = end;
        }
    }
    assert(text.skip(to - from) =~= Seq::<char>::empty());
    assert(texts(r@) + words(text.skip(to - from)) =~= texts(r@));
    r
}

/// How many words the characters from `from` to before `to` have.
pub fn count_words(chars: &[char], from: usize, to: usize) -> (r: usize)
    requires
        from <= to <= chars@.len(),
    ensures
        r == words(chars@.subrange(from as int, to as int)).len(),
{
    let ghost text = chars@.subrange(from as int, to as int);
    let mut count: usize = 0;
    let mut start: usize = from;
    assert(text.skip(0) =~= text);
    while start < to
        invariant
            from <= start <= to <= chars@.len(),
            text == chars@.subrange(from as int, to as int),
            count <= start - from,
            count + words(text.skip(start - from)).len() == words(text).len(),
        decreases to - start,
    {
        let ghost at = text.skip(start - from);
        if chars[start].is_whitespace() {
            proof {
                lemma_skip_white_space(at, 1);
                assert(at.skip(1) =~= text.skip(start + 1 - from));
            }
            start += 1;
        } else {
            let end: usize = word_end(chars, start, to);
            proof {
                let n = end - start;
                assert forall|i: int| 0 <= i < n implies !is_white_space(#[trigger] at[i]) by {
                    assert(at[i] == chars@[start + i]);
                }
                lemma_first_word(at, n);
                assert(at.skip(n) =~= text.skip(end - from));
            }
            count += 1;
            start = end;
        }
    }
    assert(text.skip(to - from) =~= Seq::<char>::empty());
    count
}

/// The decimal digit of a number below ten.
pub open spec fn digit(n: nat) -> char {
    ('0' as nat + n) as char
}

/// A number in decimal notation, without leading zeros.
pub open spec fn decimal_text(n: nat) -> Seq<char>
    decreases n,
{
    if n < 10 {
        seq![digit(n)]
    } else {
        decimal_text(n / 10).push(digit(n % 10))
    }
}

/// The number that digits stand for.
pub open spec fn decimal_value(digits: Seq<char>) -> int
    decreases digits.len(),
{
    if digits.len() == 0 {
        0
    } else {
        10 * decimal_value(digits.drop_last()) + (digits.last() as int - '0' as int)
    }
}

/// The decimal notation of a number reads back as that number. It is made of digits, and
/// only zero starts with a zero.
pub proof fn law_decimal_text_reads_back(n: nat)
    ensures
        decimal_value(decimal_text(n)) == n,
        decimal_text(n).len() > 0,
        forall|i: int|
            0 <= i < decimal_text(n).len() ==> '0' <= #[trigger] decimal_text(n)[i] <= '9',
        decimal_text(n)[0] == '0' ==> n == 0 && decimal_text(n).len() == 1,
    decreases n,
{
    let s = decimal_text(n);
    if n < 10 {
        assert(s.drop_last() =~= Seq::<char>::empty());
        assert(s.last() == digit(n));
        assert(decimal_value(Seq::<char>::empty()) == 0);
    } else {
        law_decimal_text_reads_back(n / 10);
        assert(s.drop_last() =~= decimal_text(n / 10));
        assert(s.last() == digit(n % 10));
        assert(s[0] == decimal_text(n / 10)[0]);
    }
}

/// The decimal notation of `n`.
pub fn decimal(n: u64) -> (r: String)
    ensures
        r@ == decimal_text(n as nat),
    decreases n,
{
    let mut r = if n < 10 {
        String::new()
    } else {
        decimal(n / 10)
    };
    let last: u8 = (n % 10) as u8;
    r.push((48 + last) as char);
    assert(r@ =~= decimal_text(n as nat));
    r
}

} // verus!
