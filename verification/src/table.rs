//! The checksum table: for each path the checksum that was recorded for it
//! last.

use crate::records::{
    drop_blank, lemma_drop_blank_push, lemma_parse_all_push, lines_of,
    malformed_at, parse_all, parse_record, read_lines, read_record, records_of, well_formed,
    ChecksumRecord,
};
use vstd::hash_map::StringHashMap;
use vstd::prelude::*;

verus! {

/// `table` after the records were entered one after the other, each taking
/// the place of what the table held for its path.
pub open spec fn with_records(
    table: Map<Seq<char>, Seq<char>>,
    records: Seq<ChecksumRecord>,
) -> Map<Seq<char>, Seq<char>>
    decreases records.len(),
{
    if records.len() == 0 {
        table
    } else {
        with_records(table, records.drop_last()).insert(
            records.last().path,
            records.last().checksum,
        )
    }
}

/// The table that the records make when entered in order into an empty table.
pub open spec fn table_of(records: Seq<ChecksumRecord>) -> Map<Seq<char>, Seq<char>> {
    with_records(Map::empty(), records)
}

/// Entering two runs of records one after the other is entering their
/// concatenation.
pub proof fn lemma_with_records_concat(
    table: Map<Seq<char>, Seq<char>>,
    first: Seq<ChecksumRecord>,
    second: Seq<ChecksumRecord>,
)
    ensures
        with_records(table, first + second) == with_records(with_records(table, first), second),
    decreases second.len(),
{
    if second.len() > 0 {
        assert((first + second).drop_last() =~= first + second.drop_last());
        lemma_with_records_concat(table, first, second.drop_last());
    }
}

/// Entering records into a table overlays it with the table that the records
/// make by themselves: where both hold a path, the records decide.
pub proof fn lemma_with_records_overlays(
    table: Map<Seq<char>, Seq<char>>,
    records: Seq<ChecksumRecord>,
)
    ensures
        with_records(table, records) == table.union_prefer_right(table_of(records)),
    decreases records.len(),
{
    if records.len() > 0 {
        lemma_with_records_overlays(table, records.drop_last());
    }
}

/// The table of finitely many records holds finitely many paths.
pub proof fn lemma_table_of_finite(records: Seq<ChecksumRecord>)
    ensures
        table_of(records).dom().finite(),
    decreases records.len(),
{
    if records.len() > 0 {
        lemma_table_of_finite(records.drop_last());
    }
}

/// The table holds the paths of the records, and no others.
pub proof fn law_table_holds_recorded_paths(records: Seq<ChecksumRecord>, path: Seq<char>)
    ensures
        table_of(records).contains_key(path) <==> exists|i: int|
            0 <= i < records.len() && (#[trigger] records[i]).path == path,
    decreases records.len(),
{
    if records.len() > 0 {
        let front = records.drop_last();
        law_table_holds_recorded_paths(front, path);
        if exists|i: int| 0 <= i < records.len() && (#[trigger] records[i]).path == path {
            let i = choose|i: int| 0 <= i < records.len() && (#[trigger] records[i]).path == path;
            if i < front.len() {
                assert(front[i].path == path);
            }
        }
    }
}

/// The last write wins: the table holds for a path the checksum of the last
/// record that names the path.
pub proof fn law_last_record_wins(records: Seq<ChecksumRecord>, last: int)
    requires
        0 <= last < records.len(),
        forall|later: int|
            last < later < records.len() ==> (#[trigger] records[later]).path != records[last].path,
    ensures
        table_of(records).contains_key(records[last].path),
        table_of(records)[records[last].path] == records[last].checksum,
    decreases records.len(),
{
    if last < records.len() - 1 {
        law_last_record_wins(records.drop_last(), last);
    }
}

/// The checksums that a package manager recorded, by the path of the file.
pub struct ChecksumTable {
    sums: StringHashMap<String>,
}

impl View for ChecksumTable {
    type V = Map<Seq<char>, Seq<char>>;

    closed spec fn view(&self) -> Map<Seq<char>, Seq<char>> {
        self.sums@.map_values(|sum: String| sum@)
    }
}

impl ChecksumTable {
    /// A table without entries.
    pub fn new() -> (table: ChecksumTable)
        ensures
            table@ == Map::<Seq<char>, Seq<char>>::empty(),
    {
        ChecksumTable { sums: StringHashMap::new() }
    }

    /// Records `checksum` for `path`, in place of what was recorded for it.
    pub fn insert(&mut self, path: String, checksum: String)
        ensures
            final(self)@ == old(self)@.insert(path@, checksum@),
    {
        self.sums.insert(path, checksum);
    }

    /// The checksum recorded for `path`, if there is one.
    pub fn get(&self, path: &str) -> (checksum: Option<&String>)
        ensures
            checksum is Some <==> self@.contains_key(path@),
            checksum matches Some(sum) ==> sum@ == self@[path@],
    {
        self.sums.get(path)
    }

    /// Whether a checksum is recorded for `path`.
    pub fn contains(&self, path: &str) -> (recorded: bool)
        ensures
            recorded == self@.contains_key(path@),
    {
        self.sums.contains_key(path)
    }

    /// The number of paths with a checksum.
    pub fn len(&self) -> (count: usize)
        ensures
            count == self@.len(),
    {
        assert(self@.dom() =~= self.sums@.dom());
        self.sums.len()
    }

    /// Whether the table is without entries.
    pub fn is_empty(&self) -> (empty: bool)
        ensures
            empty == (self@ == Map::<Seq<char>, Seq<char>>::empty()),
    {
        let empty = self.sums.is_empty();
        proof {
            if empty {
                assert(self@ =~= Map::<Seq<char>, Seq<char>>::empty());
            } else {
                assert(self@.dom() =~= self.sums@.dom());
            }
        }
        empty
    }

    /// Enters the records of one checksum file, line by line, up to its end
    /// or to its first malformed line, whose index is then returned.
    pub fn insert_records(&mut self, contents: &str) -> (entered: Result<(), usize>)
        ensures
            match entered {
                Ok(()) => {
                    &&& well_formed(contents@)
                    &&& final(self)@ == with_records(old(self)@, records_of(contents@))
                },
                Err(line) => {
                    &&& malformed_at(lines_of(contents@), line as int)
                    &&& forall|l: int| l < line ==> !malformed_at(lines_of(contents@), l)
                    &&& final(self)@ == with_records(
                        old(self)@,
                        parse_all(drop_blank(lines_of(contents@).take(line as int))),
                    )
                },
            },
    {
        let read = read_lines(contents);
        let ghost all = lines_of(contents@);
        let mut at: usize = 0;
        while at < read.len()
            invariant
                at <= read.len(),
                all == lines_of(contents@),
                read.deep_view() == all,
                forall|l: int| l < at ==> !malformed_at(all, l),
                self@ == with_records(old(self)@, parse_all(drop_blank(all.take(at as int)))),
            decreases read.len() - at,
        {
            let ghost seen = all.take(at as int);
            proof {
                assert(all[at as int] =~= read[at as int]@);
                assert(all.take(at + 1) =~= seen.push(all[at as int]));
                lemma_drop_blank_push(seen, all[at as int]);
            }
            if read[at].len() > 0 {
                match read_record(read[at].as_slice()) {
                    Some((path, checksum)) => {
                        proof {
                            lemma_parse_all_push(drop_blank(seen), all[at as int]);
                            assert(parse_all(drop_blank(seen)).push(
                                parse_record(all[at as int]).unwrap(),
                            ).drop_last() =~= parse_all(drop_blank(seen)));
                        }
                        self.insert(path, checksum);
                    },
                    None => {
                        return Err(at);
                    },
                }
            }
            at += 1;
        }
        assert(all.take(at as int) =~= all);
        Ok(())
    }
}

} // verus!
