//! The diversion detector: whether the directory of a file holds an entry
//! that, by its name, keeps the original of that file.

use crate::text::{chars_of, contains, last_index_of, occurs_in, string_of};
use vstd::prelude::*;

verus! {

/// The last segment of a path: what follows its last slash, or the whole
/// path where it has no slash.
pub open spec fn file_name(path: Seq<char>) -> Seq<char> {
    match path.index_of_last('/') {
        Some(slash) => path.skip(slash + 1),
        None => path,
    }
}

/// The base name of the file that a path names: its file name up to the
/// last dot, or the whole file name where it has no dot.
pub open spec fn base_name(path: Seq<char>) -> Seq<char> {
    let name = file_name(path);
    match name.index_of_last('.') {
        Some(dot) => name.take(dot),
        None => name,
    }
}

/// The extension of the file that a path names: what follows the last dot of
/// its file name, or the whole file name where it has no dot.
pub open spec fn extension(path: Seq<char>) -> Seq<char> {
    let name = file_name(path);
    match name.index_of_last('.') {
        Some(dot) => name.skip(dot + 1),
        None => name,
    }
}

/// The directory that holds the file that a path names: the path up to its
/// last slash, with a slash put before it so that it is named from the root
/// whether or not the path is. For an absolute path this doubles the leading
/// slash, which names the same directory. A path without a slash names no
/// directory.
pub open spec fn parent(path: Seq<char>) -> Seq<char> {
    match path.index_of_last('/') {
        Some(slash) => seq!['/'] + path.take(slash),
        None => Seq::empty(),
    }
}

/// An entry called `entry` keeps the original of the file at `path`: its
/// name holds the base name of the file, the mark `orig` and the extension
/// of the file, each somewhere.
pub open spec fn keeps_original(entry: Seq<char>, path: Seq<char>) -> bool {
    &&& occurs_in(entry, base_name(path))
    &&& occurs_in(entry, "orig"@)
    &&& occurs_in(entry, extension(path))
}

/// One of `entries` keeps the original of the file at `path`.
pub open spec fn diverted(path: Seq<char>, entries: Seq<Seq<char>>) -> bool {
    exists|i: int| 0 <= i < entries.len() && keeps_original(#[trigger] entries[i], path)
}

/// The directory whose entries decide whether the file at `file_path` has a
/// diversion, named from the root.
pub fn containing_directory(file_path: &str) -> (directory: String)
    ensures
        directory@ == parent(file_path@),
{
    let path = chars_of(file_path);
    let mut directory: Vec<char> = Vec::new();
    match last_index_of(path.as_slice(), '/') {
        Some(slash) => {
            directory.push('/');
            let mut i: usize = 0;
            while i < slash
                invariant
                    i <= slash < path.len(),
                    directory@ == seq!['/'] + path@.take(i as int),
                decreases slash - i,
            {
                directory.push(path[i]);
                i += 1;
            }
        },
        None => {},
    }
    string_of(directory.as_slice())
}

/// Whether the file at `file_path` has a diversion, given the names of the
/// entries of its directory.
pub fn has_diversion(file_path: String, entries: &[String]) -> (found: bool)
    ensures
        found == diverted(file_path@, entries.deep_view()),
{
    let path = chars_of(file_path.as_str());
    let name = match last_index_of(path.as_slice(), '/') {
        Some(slash) => &path[slash + 1..path.len()],
        None => path.as_slice(),
    };
    let (base, ext) = match last_index_of(name, '.') {
        Some(dot) => (&name[0..dot], &name[dot + 1..name.len()]),
        None => (name, name),
    };
    let mark = chars_of("orig");
    let mut i: usize = 0;
    while i < entries.len()
        invariant
            i <= entries.len(),
            base@ == base_name(file_path@),
            ext@ == extension(file_path@),
            mark@ == "orig"@,
            forall|j: int| 0 <= j < i ==> !keeps_original(#[trigger] entries.deep_view()[j], file_path@),
        decreases entries.len() - i,
    {
        let entry = chars_of(entries[i].as_str());
        assert(entries.deep_view()[i as int] == entry@);
        if contains(entry.as_slice(), base) && contains(entry.as_slice(), mark.as_slice())
            && contains(entry.as_slice(), ext) {
            return true;
        }
        i += 1;
    }
    false
}

} // verus!
