//! Small computations on borrowed text.

use vstd::prelude::*;
use vstd::string::StrSliceExecFns;
use vstd::string::StringExecFns;

verus! {

/// The number of characters in `s`.
pub fn count_chars(s: &str) -> (count: usize)
    ensures
        count == s@.len(),
{
    s.unicode_len()
}

/// The number of bytes that a text takes in UTF-8, as a machine word.
pub open spec fn byte_length(text: Seq<char>) -> usize {
    vstd::utf8::encode_utf8(text).len() as usize
}

/// The length of `s` in bytes.
pub fn get_length(s: &String) -> (length: usize)
    ensures
        length == byte_length(s@),
{
    s.as_str().len()
}

/// Appends " world" to `s`.
pub fn append_world(s: &mut String)
    ensures
        final(s)@ == old(s)@ + " world"@,
{
    s.append(" world");
}

/// A text that lives as long as the program.
pub fn create_valid_reference() -> (text: &'static str)
    ensures
        text@ == "This is a valid static reference"@,
{
    "This is a valid static reference"
}

/// The one of two texts that takes more bytes; the second where they take
/// the same.
pub fn longest<'a>(x: &'a str, y: &'a str) -> (r: &'a str)
    ensures
        r == if byte_length(x@) > byte_length(y@) {
            x
        } else {
            y
        },
{
    if x.len() > y.len() {
        x
    } else {
        y
    }
}

/// Whether a character is white space in the sense of Unicode.
pub uninterp spec fn is_white_space(c: char) -> bool;

/// `char::is_whitespace` tells whether a character has the Unicode property
/// White_Space. The answer depends on the character alone; this names it and
/// claims no more.
pub assume_specification[ char::is_whitespace ](c: char) -> (space: bool)
    ensures
        space == is_white_space(c),
;

/// A word starts at `index`: a character that is no white space, at the
/// start of the text or after white space.
pub open spec fn starts_word(text: Seq<char>, index: int) -> bool {
    &&& 0 <= index < text.len()
    &&& !is_white_space(text[index])
    &&& (index == 0 || is_white_space(text[index - 1]))
}

/// The number of words in `text`: of the positions at which a word starts.
pub open spec fn word_count(text: Seq<char>) -> nat
    decreases text.len(),
{
    if text.len() == 0 {
        0
    } else {
        word_count(text.drop_last()) + if starts_word(text, text.len() - 1) {
            1nat
        } else {
            0nat
        }
    }
}

/// There are no more words than characters.
pub proof fn lemma_word_count_bound(text: Seq<char>)
    ensures
        word_count(text) <= text.len(),
    decreases text.len(),
{
    if text.len() > 0 {
        lemma_word_count_bound(text.drop_last());
    }
}

/// The number of words in `s`, a word being a longest stretch of characters
/// that are no white space.
pub fn count_words(s: &str) -> (count: usize)
    ensures
        count == word_count(s@),
{
    broadcast use vstd::string::group_string_axioms;

    let length = s.unicode_len();
    let mut count: usize = 0;
    let mut after_space = true;
    for c in it: s.chars()
        invariant
            it.seq() == s@,
            length == s@.len(),
            count == word_count(s@.take(it.index())),
            after_space == (it.index() == 0 || is_white_space(s@[it.index() - 1])),
    {
        let ghost i = it.index();
        proof {
            lemma_word_count_bound(s@.take(i));
            assert(s@.take(i + 1).drop_last() == s@.take(i));
            assert(starts_word(s@.take(i + 1), i) == starts_word(s@, i));
        }
        let space = c.is_whitespace();
        if after_space && !space {
            count += 1;
        }
        after_space = space;
    }
    proof {
        assert(s@.take(s@.len() as int) == s@);
    }
    count
}

/// `from..to` is where the first word of `text` stands: only white space
/// before it, no white space in it, and white space or the end of the text
/// behind it. Where `text` has no word, both are the length of `text`.
pub open spec fn is_first_word_span(text: Seq<char>, from: int, to: int) -> bool {
    &&& 0 <= from <= to <= text.len()
    &&& forall|k: int| 0 <= k < from ==> is_white_space(#[trigger] text[k])
    &&& forall|k: int| from <= k < to ==> !is_white_space(#[trigger] text[k])
    &&& from < text.len() ==> from < to
    &&& to < text.len() ==> is_white_space(text[to])
}

/// A text has its first word in one place only.
pub proof fn lemma_first_word_span_is_unique(
    text: Seq<char>,
    from: int,
    to: int,
    other_from: int,
    other_to: int,
)
    requires
        is_first_word_span(text, from, to),
        is_first_word_span(text, other_from, other_to),
    ensures
        from == other_from,
        to == other_to,
{
    if from < other_from {
        assert(is_white_space(text[from]));
        assert(!is_white_space(text[from]));
    }
    if other_from < from {
        assert(is_white_space(text[other_from]));
        assert(!is_white_space(text[other_from]));
    }
    if to < other_to {
        assert(!is_white_space(text[to]));
    }
    if other_to < to {
        assert(!is_white_space(text[other_to]));
    }
}

/// The first word of `s`, or the empty text where `s` has no word.
pub fn get_first_word(s: &str) -> (word: &str)
    ensures
        exists|from: int, to: int|
            #[trigger] is_first_word_span(s@, from, to) && word@ == s@.subrange(from, to),
{
    broadcast use vstd::string::group_string_axioms;

    let length = s.unicode_len();
    let mut from: usize = length;
    let mut to: usize = length;
    let mut position: usize = 0;
    for c in it: s.chars()
        invariant
            it.seq() == s@,
            length == s@.len(),
            position == it.index(),
            from <= length,
            to <= length,
            from == length ==> to == length && forall|k: int|
                0 <= k < position ==> is_white_space(#[trigger] s@[k]),
            from < length ==> from < position && !is_white_space(s@[from as int]) && forall|k: int|
                0 <= k < from ==> is_white_space(#[trigger] s@[k]),
            from < length && to == length ==> forall|k: int|
                from <= k < position ==> !is_white_space(#[trigger] s@[k]),
            to < length ==> from < to < position && is_white_space(s@[to as int]) && forall|k: int|
                from <= k < to ==> !is_white_space(#[trigger] s@[k]),
    {
        let space = c.is_whitespace();
        if from == length {
            if !space {
                from = position;
            }
        } else if to == length {
            if space {
                to = position;
            }
        }
        position += 1;
    }
    proof {
        assert(is_first_word_span(s@, from as int, to as int));
    }
    s.substring_char(from, to)
}

/// The code of the space character.
pub const SPACE: u8 = 0x20;

/// `index` is where the first space of `bytes` stands, or the length of
/// `bytes` where it holds no space.
pub open spec fn is_first_space(bytes: Seq<u8>, index: int) -> bool {
    &&& 0 <= index <= bytes.len()
    &&& forall|k: int| 0 <= k < index ==> #[trigger] bytes[k] != SPACE
    &&& index < bytes.len() ==> bytes[index] == SPACE
}

/// The text up to the first space of `s`, or all of `s` where it holds no
/// space. Only the space character itself ends the word. The contract
/// speaks of the bytes of the two texts in UTF-8.
pub fn first_word(s: &str) -> (word: &str)
    ensures
        exists|index: int|
            #[trigger] is_first_space(vstd::utf8::encode_utf8(s@), index)
                && vstd::utf8::encode_utf8(word@) == vstd::utf8::encode_utf8(s@).subrange(0, index),
{
    let bytes = s.as_bytes();
    let mut i: usize = 0;
    while i < bytes.len()
        invariant
            i <= bytes@.len(),
            bytes@ == vstd::utf8::encode_utf8(s@),
            forall|k: int| 0 <= k < i ==> #[trigger] bytes@[k] != SPACE,
        decreases bytes@.len() - i,
    {
        if bytes[i] == SPACE {
            proof {
                vstd::utf8::encode_utf8_valid_utf8(s@);
                vstd::utf8::is_char_boundary_iff_not_is_continuation_byte(bytes@, i as int);
                assert(is_first_space(bytes@, i as int));
            }
            let (head, _) = s.split_at(i);
            return head;
        }
        i += 1;
    }
    proof {
        assert(is_first_space(bytes@, bytes@.len() as int));
        assert(bytes@.subrange(0, bytes@.len() as int) == bytes@);
    }
    s
}

} // verus!
