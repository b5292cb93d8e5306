//! Putting names together.

use vstd::prelude::*;
use vstd::string::*;

verus! {

/// The parts written one after the other, with the separator between each
/// two of them.
pub open spec fn joined(parts: Seq<Seq<char>>, separator: Seq<char>) -> Seq<char>
    decreases parts.len(),
{
    if parts.len() == 0 {
        Seq::empty()
    } else if parts.len() == 1 {
        parts[0]
    } else {
        joined(parts.drop_last(), separator) + separator + parts.last()
    }
}

/// The texts of a list of string slices.
pub open spec fn texts(parts: Seq<&str>) -> Seq<Seq<char>> {
    parts.map_values(|part: &str| part@)
}

/// Writes the parts one after the other, with the separator between each two
/// of them.
pub fn join(parts: &Vec<&str>, separator: &str) -> (text: String)
    ensures
        text@ == joined(texts(parts@), separator@),
{
    let mut text = String::new();
    for i in 0..parts.len()
        invariant
            text@ == joined(texts(parts@).take(i as int), separator@),
    {
        proof {
            let done = texts(parts@).take(i as int);
            let next = texts(parts@).take(i + 1);
            assert(next.drop_last() =~= done);
            assert(next.last() == parts@[i as int]@);
        }
        if i > 0 {
            text.append(separator);
        }
        text.append(parts[i]);
    }
    assert(texts(parts@).take(parts.len() as int) =~= texts(parts@));
    text
}

/// Whether the character is white space: a tab, a line feed or another of
/// the control characters from U+0009 to U+000D, U+0085, or a space of any
/// width.
pub open spec fn is_space(c: char) -> bool {
    let code = c as u32;
    ||| 0x09 <= code <= 0x0D
    ||| code == 0x20
    ||| code == 0x85
    ||| code == 0xA0
    ||| code == 0x1680
    ||| 0x2000 <= code <= 0x200A
    ||| code == 0x2028
    ||| code == 0x2029
    ||| code == 0x202F
    ||| code == 0x205F
    ||| code == 0x3000
}

/// Tells whether the character is white space.
pub fn is_whitespace(c: char) -> (space: bool)
    ensures
        space == is_space(c),
{
    let code = c as u32;
    0x09 <= code && code <= 0x0D || code == 0x20 || code == 0x85 || code == 0xA0 || code == 0x1680
        || 0x2000 <= code && code <= 0x200A || code == 0x2028 || code == 0x2029 || code == 0x202F
        || code == 0x205F || code == 0x3000
}

/// The number of characters before the first white space of the text, or
/// before its end.
pub open spec fn word_length(s: Seq<char>) -> nat
    decreases s.len(),
{
    if s.len() == 0 || is_space(s[0]) {
        0
    } else {
        1 + word_length(s.skip(1))
    }
}

/// A text starts with as many characters without white space as
/// `word_length` says, and no more.
pub proof fn lemma_word_length(s: Seq<char>)
    ensures
        word_length(s) <= s.len(),
        forall|i: int| 0 <= i < word_length(s) ==> !is_space(#[trigger] s[i]),
        word_length(s) < s.len() ==> is_space(s[word_length(s) as int]),
    decreases s.len(),
{
    if s.len() == 0 || is_space(s[0]) {
    } else {
        let rest = s.skip(1);
        lemma_word_length(rest);
        assert forall|i: int| 0 <= i < word_length(s) implies !is_space(#[trigger] s[i]) by {
            if i > 0 {
                assert(s[i] == rest[i - 1]);
            }
        }
        if word_length(s) < s.len() {
            assert(s[word_length(s) as int] == rest[word_length(rest) as int]);
        }
    }
}

/// A text that starts with `length` characters without white space, and
/// goes on with white space or ends there, has a first word of that length.
pub proof fn lemma_word_found(s: Seq<char>, length: int)
    requires
        0 <= length <= s.len(),
        forall|i: int| 0 <= i < length ==> !is_space(#[trigger] s[i]),
        length < s.len() ==> is_space(s[length]),
    ensures
        word_length(s) == length,
    decreases length,
{
    if length > 0 {
        let rest = s.skip(1);
        assert forall|i: int| 0 <= i < length - 1 implies !is_space(#[trigger] rest[i]) by {
            assert(rest[i] == s[i + 1]);
        }
        lemma_word_found(rest, length - 1);
    }
}

/// The words of a text: its longest parts without white space, from left to
/// right. White space before, between and after them is dropped.
pub open spec fn words(s: Seq<char>) -> Seq<Seq<char>>
    decreases s.len(),
{
    if s.len() == 0 {
        Seq::empty()
    } else if is_space(s[0]) {
        words(s.skip(1))
    } else {
        proof {
            lemma_word_length(s);
        }
        let length = word_length(s) as int;
        seq![s.take(length)] + words(s.skip(length))
    }
}

/// Whether the text is a word: it is not empty and holds no white space.
pub open spec fn plain(s: Seq<char>) -> bool {
    s.len() > 0 && forall|i: int| 0 <= i < s.len() ==> !is_space(#[trigger] s[i])
}

/// A word is the one word of itself.
pub proof fn lemma_words_plain(word: Seq<char>)
    requires
        plain(word),
    ensures
        words(word) == seq![word],
{
    lemma_word_found(word, word.len() as int);
    assert(!is_space(word[0]));
    assert(word.take(word.len() as int) =~= word);
    assert(words(word.skip(word.len() as int)) =~= Seq::<Seq<char>>::empty());
    assert(words(word) =~= seq![word]);
}

/// A word that is written behind a text, with a space between them, is one
/// more word behind the words of the text.
pub proof fn lemma_words_appended(s: Seq<char>, word: Seq<char>)
    requires
        plain(word),
    ensures
        words(s + seq![' '] + word) == words(s).push(word),
    decreases s.len(),
{
    let line = s + seq![' '] + word;
    if s.len() == 0 {
        assert(line.skip(1) =~= word);
        assert(is_space(line[0]));
        lemma_words_plain(word);
        assert(words(s) =~= Seq::<Seq<char>>::empty());
        assert(words(line) =~= words(s).push(word));
    } else if is_space(s[0]) {
        assert(line[0] == s[0]);
        assert(line.skip(1) =~= s.skip(1) + seq![' '] + word);
        lemma_words_appended(s.skip(1), word);
    } else {
        lemma_word_length(s);
        let length = word_length(s) as int;
        assert forall|i: int| 0 <= i < length implies !is_space(#[trigger] line[i]) by {
            assert(line[i] == s[i]);
        }
        assert(is_space(line[length])) by {
            if length < s.len() {
                assert(line[length] == s[length]);
            } else {
                assert(line[length] == ' ');
            }
        }
        lemma_word_found(line, length);
        assert(line[0] == s[0]);
        assert(line.take(length) =~= s.take(length));
        assert(line.skip(length) =~= s.skip(length) + seq![' '] + word);
        lemma_words_appended(s.skip(length), word);
        assert(words(line) =~= words(s).push(word));
    }
}

/// Words that are joined with a space between them are the words of what
/// they are joined to.
pub proof fn lemma_words_joined(parts: Seq<Seq<char>>)
    requires
        forall|i: int| 0 <= i < parts.len() ==> plain(#[trigger] parts[i]),
    ensures
        words(joined(parts, seq![' '])) == parts,
    decreases parts.len(),
{
    if parts.len() == 0 {
        assert(words(joined(parts, seq![' '])) =~= parts);
    } else if parts.len() == 1 {
        lemma_words_plain(parts[0]);
        assert(seq![parts[0]] =~= parts);
    } else {
        let most = parts.drop_last();
        assert forall|i: int| 0 <= i < most.len() implies plain(#[trigger] most[i]) by {
            assert(most[i] == parts[i]);
        }
        lemma_words_joined(most);
        lemma_words_appended(joined(most, seq![' ']), parts.last());
        assert(most.push(parts.last()) =~= parts);
    }
}

/// The texts of a list of strings.
pub open spec fn names(strings: Seq<String>) -> Seq<Seq<char>> {
    strings.map_values(|string: String| string@)
}

/// Where a word stands in a text, the words from its start on are that word
/// and the words from its end on.
proof fn lemma_word_cut(s: Seq<char>, from: int, to: int)
    requires
        0 <= from < to <= s.len(),
        forall|i: int| from <= i < to ==> !is_space(#[trigger] s[i]),
        to < s.len() ==> is_space(s[to]),
    ensures
        words(s.skip(from)) == seq![s.subrange(from, to)] + words(s.skip(to)),
{
    let rest = s.skip(from);
    assert forall|i: int| 0 <= i < to - from implies !is_space(#[trigger] rest[i]) by {
        assert(rest[i] == s[from + i]);
    }
    if to < s.len() {
        assert(rest[to - from] == s[to]);
    }
    lemma_word_found(rest, to - from);
    assert(!is_space(rest[0]));
    assert(rest.take(to - from) =~= s.subrange(from, to));
    assert(rest.skip(to - from) =~= s.skip(to));
}

/// Splits a text into its words.
pub fn split_whitespace(text: &str) -> (parts: Vec<String>)
    ensures
        names(parts@) == words(text@),
{
    let length = text.unicode_len();
    let mut parts: Vec<String> = Vec::new();
    let mut start: Option<usize> = None;
    let mut index: usize = 0;
    assert(names(parts@) + words(text@.skip(0)) =~= words(text@)) by {
        assert(text@.skip(0) =~= text@);
    }
    for c in it: text.chars()
        invariant
            it.seq() == text@,
            length == text@.len(),
            index == it.index(),
            start matches Some(from) ==> from < index && forall|i: int|
                from <= i < index ==> !is_space(#[trigger] text@[i]),
            words(text@) == names(parts@) + words(
                text@.skip(
                    match start {
                        Some(from) => from as int,
                        None => index as int,
                    },
                ),
            ),
    {
        if is_whitespace(c) {
            if let Some(from) = start {
                let part = text.substring_char(from, index).to_owned();
                proof {
                    lemma_word_cut(text@, from as int, index as int);
                    assert(names(parts@.push(part)) =~= names(parts@) + seq![part@]);
                }
                parts.push(part);
                start = None;
            }
            proof {
                let rest = text@.skip(index as int);
                assert(is_space(rest[0]));
                assert(rest.skip(1) =~= text@.skip(index + 1));
            }
        } else if start.is_none() {
            start = Some(index);
        }
        index = index + 1;
    }
    if let Some(from) = start {
        let part = text.substring_char(from, index).to_owned();
        proof {
            lemma_word_cut(text@, from as int, index as int);
            assert(words(text@.skip(index as int)) =~= Seq::<Seq<char>>::empty());
            assert(names(parts@.push(part)) =~= names(parts@) + seq![part@]);
        }
        parts.push(part);
    } else {
        assert(words(text@.skip(index as int)) =~= Seq::<Seq<char>>::empty());
    }
    parts
}

} // verus!
