//! The lines of a metadata file: which of them count, and what a line of a
//! checksum file records.

use crate::text::{chars_of, lemma_pieces_around_separator, pieces, split, string_of};
use vstd::prelude::*;

verus! {

/// What one line of a checksum file records.
pub struct ChecksumRecord {
    pub path: Seq<char>,
    pub checksum: Seq<char>,
}

/// The lines of a text: what stands between its line feeds.
pub open spec fn lines_of(text: Seq<char>) -> Seq<Seq<char>> {
    pieces(text, "\n"@)
}

/// The given lines without the blank ones.
pub open spec fn drop_blank(lines: Seq<Seq<char>>) -> Seq<Seq<char>> {
    lines.filter(|line: Seq<char>| line.len() > 0)
}

/// The lines of a text that hold anything.
pub open spec fn content_lines(text: Seq<char>) -> Seq<Seq<char>> {
    drop_blank(lines_of(text))
}

/// The record that a line holds: the line must consist of exactly two fields
/// with two spaces between them, the checksum first and the path second.
pub open spec fn parse_record(line: Seq<char>) -> Option<ChecksumRecord> {
    let fields = pieces(line, "  "@);
    if fields.len() == 2 {
        Some(ChecksumRecord { path: fields[1], checksum: fields[0] })
    } else {
        None
    }
}

/// The records of the given lines, line by line.
pub open spec fn parse_all(lines: Seq<Seq<char>>) -> Seq<ChecksumRecord> {
    lines.map_values(|line: Seq<char>| parse_record(line).unwrap())
}

/// The records of a checksum file, in the order of its lines.
pub open spec fn records_of(text: Seq<char>) -> Seq<ChecksumRecord> {
    parse_all(content_lines(text))
}

/// Line `line` of `lines` holds something that is not a record.
pub open spec fn malformed_at(lines: Seq<Seq<char>>, line: int) -> bool {
    &&& 0 <= line < lines.len()
    &&& lines[line].len() > 0
    &&& parse_record(lines[line]) is None
}

/// Every line of the text is blank or holds a record.
pub open spec fn well_formed(text: Seq<char>) -> bool {
    forall|line: int| !malformed_at(lines_of(text), line)
}

/// Each of the given lines holds a record.
pub open spec fn all_parse(lines: Seq<Seq<char>>) -> bool {
    forall|line: int| 0 <= line < lines.len() ==> parse_record(#[trigger] lines[line]) is Some
}

/// Appending a line to some lines appends it to their content lines as well,
/// unless it is blank.
pub proof fn lemma_drop_blank_push(lines: Seq<Seq<char>>, line: Seq<char>)
    ensures
        drop_blank(lines.push(line)) == if line.len() > 0 {
            drop_blank(lines).push(line)
        } else {
            drop_blank(lines)
        },
{
    lines.lemma_filter_push(line, |line: Seq<char>| line.len() > 0);
}

/// The records of some lines and one more are the records of those lines and
/// the record of that one.
pub proof fn lemma_parse_all_push(lines: Seq<Seq<char>>, line: Seq<char>)
    ensures
        parse_all(lines.push(line)) == parse_all(lines).push(parse_record(line).unwrap()),
{
}

/// A text is well formed exactly if each of its content lines holds a record.
pub proof fn lemma_well_formed_by_content(text: Seq<char>)
    ensures
        well_formed(text) <==> all_parse(content_lines(text)),
{
    lemma_malformed_by_content(lines_of(text));
}

/// Some lines hold a malformed one exactly if one of those that are not
/// blank holds no record.
pub proof fn lemma_malformed_by_content(all: Seq<Seq<char>>)
    ensures
        (forall|line: int| !malformed_at(all, line)) <==> all_parse(drop_blank(all)),
    decreases all.len(),
{
    if all.len() > 0 {
        let front = all.drop_last();
        let last = all.last();
        let content = drop_blank(all);
        let before = drop_blank(front);
        assert(front.push(last) =~= all);
        lemma_drop_blank_push(front, last);
        lemma_malformed_by_content(front);
        if forall|line: int| !malformed_at(all, line) {
            assert forall|line: int| !malformed_at(front, line) by {
                assert(!malformed_at(all, line));
            }
            assert(!malformed_at(all, all.len() - 1));
            assert(all_parse(content));
        }
        if all_parse(content) {
            assert forall|k: int| 0 <= k < before.len() implies parse_record(
                #[trigger] before[k],
            ) is Some by {
                assert(before[k] == content[k]);
            }
            assert forall|line: int| !malformed_at(all, line) by {
                if 0 <= line < front.len() {
                    assert(!malformed_at(front, line));
                } else if line == all.len() - 1 && last.len() > 0 {
                    assert(content[content.len() - 1] == last);
                }
            }
        }
    }
}

/// No content line is blank.
pub proof fn law_content_lines_not_blank(text: Seq<char>, line: int)
    requires
        0 <= line < content_lines(text).len(),
    ensures
        content_lines(text)[line].len() > 0,
{
}

/// The lines of two texts joined by a line feed are the lines of the first
/// followed by the lines of the second.
pub proof fn law_lines_joined(before: Seq<char>, after: Seq<char>)
    ensures
        lines_of(before + "\n"@ + after) == lines_of(before) + lines_of(after),
{
    reveal_strlit("\n");
    assert("\n"@ =~= seq!['\n']);
    lemma_pieces_around_separator(before, after, '\n');
}

/// The content lines of two texts joined by a line feed are the content
/// lines of the first followed by those of the second.
pub proof fn law_content_lines_joined(before: Seq<char>, after: Seq<char>)
    ensures
        content_lines(before + "\n"@ + after) == content_lines(before) + content_lines(after),
{
    law_lines_joined(before, after);
}

/// A blank line adds nothing: with a second line feed where two texts are
/// joined, the content lines are what they are with one.
pub proof fn law_blank_line_adds_nothing(before: Seq<char>, after: Seq<char>)
    ensures
        content_lines(before + "\n"@ + "\n"@ + after) == content_lines(before + "\n"@ + after),
{
    reveal_strlit("\n");
    let blank = Seq::<char>::empty();
    assert(before + "\n"@ + "\n"@ + after =~= before + "\n"@ + (blank + "\n"@ + after));
    law_content_lines_joined(before, blank + "\n"@ + after);
    law_content_lines_joined(blank, after);
    law_content_lines_joined(before, after);
    assert(content_lines(blank) =~= Seq::<Seq<char>>::empty()) by {
        lemma_drop_blank_push(Seq::empty(), blank);
    }
}

/// The lines of a text, read from a string.
pub fn read_lines(contents: &str) -> (read: Vec<Vec<char>>)
    ensures
        read.deep_view() == lines_of(contents@),
{
    let text = chars_of(contents);
    split(text.as_slice(), chars_of("\n").as_slice())
}

/// The lines of a text that hold anything, read from a string.
pub fn read_content_lines(contents: &str) -> (read: Vec<String>)
    ensures
        read.deep_view() == content_lines(contents@),
{
    let all = read_lines(contents);
    let ghost given = lines_of(contents@);
    let mut read: Vec<String> = Vec::new();
    let mut at: usize = 0;
    while at < all.len()
        invariant
            at <= all.len(),
            all.deep_view() == given,
            read.deep_view() == drop_blank(given.take(at as int)),
        decreases all.len() - at,
    {
        proof {
            assert(given[at as int] =~= all[at as int]@);
            assert(given.take(at + 1) =~= given.take(at as int).push(given[at as int]));
            lemma_drop_blank_push(given.take(at as int), given[at as int]);
        }
        if all[at].len() > 0 {
            read.push(string_of(all[at].as_slice()));
        }
        at += 1;
    }
    assert(given.take(at as int) =~= given);
    read
}

/// Reads one line of a checksum file as a record: its path and its checksum.
pub fn read_record(line: &[char]) -> (record: Option<(String, String)>)
    ensures
        record is Some <==> parse_record(line@) is Some,
        record matches Some((path, checksum)) ==> {
            &&& path@ == parse_record(line@).unwrap().path
            &&& checksum@ == parse_record(line@).unwrap().checksum
        },
{
    let fields = split(line, chars_of("  ").as_slice());
    if fields.len() == 2 {
        Some((string_of(fields[1].as_slice()), string_of(fields[0].as_slice())))
    } else {
        None
    }
}

} // verus!
