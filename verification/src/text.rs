//! Text as sequences of characters: where a pattern occurs, how a separator
//! cuts a text into pieces, and the conversions between strings, characters
//! and bytes that the rest of the library builds on.

use vstd::prelude::*;
use vstd::utf8::{decode_utf8, valid_utf8};

verus! {

/// `pattern` occurs in `text`, its first character at index `at`.
pub open spec fn occurs_at(text: Seq<char>, pattern: Seq<char>, at: int) -> bool {
    &&& 0 <= at
    &&& at + pattern.len() <= text.len()
    &&& text.subrange(at, at + pattern.len()) == pattern
}

/// `pattern` occurs somewhere in `text`. The empty pattern occurs in every text.
pub open spec fn occurs_in(text: Seq<char>, pattern: Seq<char>) -> bool {
    exists|at: int| occurs_at(text, pattern, at)
}

/// `at` is the leftmost index at which `pattern` occurs in `text`.
pub open spec fn is_first_occurrence(text: Seq<char>, pattern: Seq<char>, at: int) -> bool {
    &&& occurs_at(text, pattern, at)
    &&& forall|earlier: int| 0 <= earlier < at ==> !occurs_at(text, pattern, earlier)
}

/// The leftmost index at which `pattern` occurs in `text`; meaningful only
/// where `occurs_in(text, pattern)`.
pub open spec fn first_occurrence(text: Seq<char>, pattern: Seq<char>) -> int {
    choose|at: int| is_first_occurrence(text, pattern, at)
}

/// The pieces into which `separator` cuts `text`: the text before the leftmost
/// occurrence of the separator, followed by the pieces of what comes after
/// that occurrence. A text without the separator is a single piece, so there
/// is always at least one piece, and an empty separator cuts nothing.
pub open spec fn pieces(text: Seq<char>, separator: Seq<char>) -> Seq<Seq<char>>
    decreases text.len(),
{
    let at = first_occurrence(text, separator);
    if separator.len() > 0 && occurs_at(text, separator, at) {
        seq![text.take(at)] + pieces(text.skip(at + separator.len()), separator)
    } else {
        seq![text]
    }
}

/// The lower-case form of an ASCII capital letter; every other character is
/// left as it is.
pub open spec fn ascii_lowercase(c: char) -> char {
    if 'A' <= c <= 'Z' {
        ((c as u8) + 32) as char
    } else {
        c
    }
}

/// `text` with each ASCII capital letter replaced by its lower-case form.
pub open spec fn lowercase(text: Seq<char>) -> Seq<char> {
    text.map_values(|c: char| ascii_lowercase(c))
}

/// An occurrence in a suffix of a text is an occurrence in the text, shifted
/// by the length of what was skipped.
pub proof fn lemma_occurs_at_skip(text: Seq<char>, pattern: Seq<char>, skipped: int, at: int)
    requires
        0 <= skipped <= text.len(),
        0 <= at,
    ensures
        occurs_at(text.skip(skipped), pattern, at) <==> occurs_at(text, pattern, skipped + at),
{
    if at + pattern.len() <= text.len() - skipped {
        assert(text.skip(skipped).subrange(at, at + pattern.len()) =~= text.subrange(
            skipped + at,
            skipped + at + pattern.len(),
        ));
    }
}

/// Where a pattern occurs at all, it has a leftmost occurrence, and
/// `first_occurrence` names it.
pub proof fn lemma_first_occurrence_exists(text: Seq<char>, pattern: Seq<char>, at: int)
    requires
        occurs_at(text, pattern, at),
    ensures
        is_first_occurrence(text, pattern, first_occurrence(text, pattern)),
    decreases at,
{
    if exists|earlier: int| 0 <= earlier < at && occurs_at(text, pattern, earlier) {
        let earlier = choose|earlier: int| 0 <= earlier < at && occurs_at(text, pattern, earlier);
        lemma_first_occurrence_exists(text, pattern, earlier);
    } else {
        assert(is_first_occurrence(text, pattern, at));
    }
}

/// A text is cut at the leftmost occurrence of the separator.
pub proof fn lemma_pieces_at_first_occurrence(text: Seq<char>, separator: Seq<char>, at: int)
    requires
        separator.len() > 0,
        is_first_occurrence(text, separator, at),
    ensures
        pieces(text, separator) == seq![text.take(at)] + pieces(
            text.skip(at + separator.len()),
            separator,
        ),
{
}

/// A one-character separator cuts a text that is joined by it where it was
/// joined: the pieces of `before`, the separator and `after` are the pieces
/// of `before` followed by the pieces of `after`.
pub proof fn lemma_pieces_around_separator(before: Seq<char>, after: Seq<char>, separator: char)
    ensures
        pieces(before + seq![separator] + after, seq![separator]) == pieces(
            before,
            seq![separator],
        ) + pieces(after, seq![separator]),
    decreases before.len(),
{
    let mark = seq![separator];
    let whole = before + mark + after;
    if occurs_in(before, mark) {
        let witness = choose|at: int| occurs_at(before, mark, at);
        lemma_first_occurrence_exists(before, mark, witness);
        let at = first_occurrence(before, mark);
        let rest = before.skip(at + 1);
        assert(whole.subrange(at, at + 1) =~= before.subrange(at, at + 1));
        assert forall|earlier: int| 0 <= earlier < at implies !occurs_at(whole, mark, earlier) by {
            assert(whole.subrange(earlier, earlier + 1) =~= before.subrange(earlier, earlier + 1));
            assert(!occurs_at(before, mark, earlier));
        }
        lemma_pieces_at_first_occurrence(whole, mark, at);
        assert(whole.take(at) =~= before.take(at));
        assert(whole.skip(at + 1) =~= rest + mark + after);
        lemma_pieces_around_separator(rest, after, separator);
    } else {
        let at = before.len() as int;
        assert(whole.subrange(at, at + 1) =~= mark);
        assert forall|earlier: int| 0 <= earlier < at implies !occurs_at(whole, mark, earlier) by {
            assert(whole.subrange(earlier, earlier + 1) =~= before.subrange(earlier, earlier + 1));
            assert(!occurs_at(before, mark, earlier));
        }
        lemma_pieces_at_first_occurrence(whole, mark, at);
        assert(whole.take(at) =~= before);
        assert(whole.skip(at + 1) =~= after);
    }
}

/// The characters of a string, in order.
pub fn chars_of(text: &str) -> (chars: Vec<char>)
    ensures
        chars@ == text@,
{
    let mut chars: Vec<char> = Vec::new();
    for c in it: text.chars()
        invariant
            it.seq() == text@,
            chars@ == it.seq().take(it.index() as int),
    {
        chars.push(c);
    }
    chars
}

/// `String::push`: appends one character to the end of the string and leaves
/// what was there before untouched.
#[verifier::external_body]
fn push_char(text: &mut String, c: char)
    ensures
        final(text)@ == old(text)@.push(c),
{
    text.push(c);
}

/// The string made of the given characters, in order.
pub fn string_of(chars: &[char]) -> (text: String)
    ensures
        text@ == chars@,
{
    let mut text = String::new();
    let mut i: usize = 0;
    while i < chars.len()
        invariant
            i <= chars.len(),
            text@ == chars@.take(i as int),
        decreases chars.len() - i,
    {
        push_char(&mut text, chars[i]);
        i += 1;
    }
    text
}

/// `String::from_utf8`: succeeds exactly on well-formed UTF-8 and then yields
/// the string whose characters the bytes encode; the outside error, which
/// only hands the bytes back, is dropped.
#[verifier::external_body]
fn decode(bytes: Vec<u8>) -> (text: Option<String>)
    ensures
        text is Some <==> valid_utf8(bytes@),
        text matches Some(t) ==> t@ == decode_utf8(bytes@),
{
    String::from_utf8(bytes).ok()
}

/// Reads bytes as text. The bytes must be well-formed UTF-8.
pub fn bytes_to_str(byte_vec: Vec<u8>) -> (output: String)
    requires
        valid_utf8(byte_vec@),
    ensures
        output@ == decode_utf8(byte_vec@),
{
    decode(byte_vec).unwrap()
}

/// Whether `pattern` occurs in `text` at index `at`.
pub fn matches_at(text: &[char], pattern: &[char], at: usize) -> (matched: bool)
    ensures
        matched == occurs_at(text@, pattern@, at as int),
{
    if pattern.len() > text.len() || at > text.len() - pattern.len() {
        return false;
    }
    let mut i: usize = 0;
    while i < pattern.len()
        invariant
            i <= pattern.len(),
            at + pattern.len() <= text.len(),
            forall|j: int| 0 <= j < i ==> text@[at + j] == pattern@[j],
        decreases pattern.len() - i,
    {
        if text[at + i] != pattern[i] {
            return false;
        }
        i += 1;
    }
    assert(text@.subrange(at as int, at + pattern.len()) =~= pattern@);
    true
}

/// The leftmost index at or after `from` at which `pattern` occurs in `text`.
pub fn find(text: &[char], pattern: &[char], from: usize) -> (found: Option<usize>)
    ensures
        match found {
            Some(at) => {
                &&& from <= at
                &&& occurs_at(text@, pattern@, at as int)
                &&& forall|earlier: int| from <= earlier < at ==> !occurs_at(text@, pattern@, earlier)
            },
            None => forall|at: int| from <= at ==> !occurs_at(text@, pattern@, at),
        },
{
    let mut at: usize = from;
    while at <= text.len() && pattern.len() <= text.len() - at
        invariant
            from <= at,
            forall|earlier: int| from <= earlier < at ==> !occurs_at(text@, pattern@, earlier),
        decreases text.len() + 1 - at,
    {
        if matches_at(text, pattern, at) {
            return Some(at);
        }
        proof {
            if pattern.len() == 0 {
                assert(text@.subrange(at as int, at as int) =~= pattern@);
            }
        }
        at += 1;
    }
    None
}

/// Whether `pattern` occurs somewhere in `text`.
pub fn contains(text: &[char], pattern: &[char]) -> (found: bool)
    ensures
        found == occurs_in(text@, pattern@),
{
    find(text, pattern, 0).is_some()
}

/// Whether `text` ends with `suffix`.
pub fn ends_with(text: &[char], suffix: &[char]) -> (ended: bool)
    ensures
        ended == suffix@.is_suffix_of(text@),
{
    if suffix.len() > text.len() {
        false
    } else {
        matches_at(text, suffix, text.len() - suffix.len())
    }
}

/// Cuts `text` at each occurrence of `separator`, leftmost first.
pub fn split(text: &[char], separator: &[char]) -> (parts: Vec<Vec<char>>)
    ensures
        parts.deep_view() == pieces(text@, separator@),
{
    let mut parts: Vec<Vec<char>> = Vec::new();
    if separator.len() == 0 {
        parts.push(vstd::slice::slice_to_vec(text));
        assert(parts.deep_view() =~~= seq![text@]);
        return parts;
    }
    let mut start: usize = 0;
    assert(text@.skip(0) =~= text@);
    loop
        invariant
            separator.len() > 0,
            start <= text.len(),
            pieces(text@, separator@) == parts.deep_view() + pieces(
                text@.skip(start as int),
                separator@,
            ),
        decreases text.len() - start,
    {
        let ghost rest = text@.skip(start as int);
        let ghost before = parts.deep_view();
        match find(text, separator, start) {
            Some(at) => {
                proof {
                    assert forall|earlier: int| 0 <= earlier < at - start implies !occurs_at(
                        rest,
                        separator@,
                        earlier,
                    ) by {
                        lemma_occurs_at_skip(text@, separator@, start as int, earlier);
                    }
                    lemma_occurs_at_skip(text@, separator@, start as int, at - start);
                    lemma_pieces_at_first_occurrence(rest, separator@, at - start);
                    assert(rest.take(at - start) =~= text@.subrange(start as int, at as int));
                    assert(rest.skip(at - start + separator.len()) =~= text@.skip(
                        at + separator.len(),
                    ));
                }
                let ghost begun = start;
                parts.push(vstd::slice::slice_to_vec(&text[start..at]));
                start = at + separator.len();
                assert(parts.deep_view() =~~= before.push(text@.subrange(begun as int, at as int)));
            },
            None => {
                proof {
                    assert forall|at: int| !occurs_at(rest, separator@, at) by {
                        if 0 <= at {
                            lemma_occurs_at_skip(text@, separator@, start as int, at);
                        }
                    }
                }
                parts.push(vstd::slice::slice_to_vec(&text[start..text.len()]));
                assert(parts.deep_view() =~~= before.push(rest));
                return parts;
            },
        }
    }
}

/// `text` with each ASCII capital letter replaced by its lower-case form.
pub fn to_ascii_lowercase(text: &[char]) -> (lowered: Vec<char>)
    ensures
        lowered@ == lowercase(text@),
{
    let mut lowered: Vec<char> = Vec::new();
    let mut i: usize = 0;
    while i < text.len()
        invariant
            i <= text.len(),
            lowered@ == lowercase(text@.take(i as int)),
        decreases text.len() - i,
    {
        let c = text[i];
        let l = if 'A' <= c && c <= 'Z' {
            ((c as u8) + 32) as char
        } else {
            c
        };
        lowered.push(l);
        i += 1;
    }
    lowered
}

/// Whether two texts are the same, character for character.
pub fn same_text(left: &[char], right: &[char]) -> (same: bool)
    ensures
        same == (left@ == right@),
{
    if left.len() != right.len() {
        return false;
    }
    let matched = matches_at(left, right, 0);
    assert(left@.subrange(0, left@.len() as int) =~= left@);
    matched
}

/// The index of the last occurrence of the character `c` in `text`.
pub fn last_index_of(text: &[char], c: char) -> (found: Option<usize>)
    ensures
        match found {
            Some(at) => at < text.len() && text@.index_of_last(c) == Some(at as int),
            None => text@.index_of_last(c) is None,
        },
{
    let mut at: usize = text.len();
    while at > 0
        invariant
            at <= text.len(),
            forall|later: int| at <= later < text.len() ==> text@[later] != c,
        decreases at,
    {
        at -= 1;
        if text[at] == c {
            proof {
                text@.index_of_last_ensures(c);
            }
            return Some(at);
        }
    }
    proof {
        text@.index_of_last_ensures(c);
    }
    None
}

} // verus!
