//! The environment scanner: which package manager a host has, judged from
//! the entries of the directories on its executable search path.

use crate::text::{chars_of, lowercase, pieces, same_text, split, string_of, to_ascii_lowercase};
use vstd::prelude::*;

verus! {

/// The package managers that the scanner knows by the name of their program.
#[derive(Clone, Copy, Debug, PartialEq, Eq, Structural)]
pub enum PackageManager {
    Apt,
    Dnf,
    Eopkg,
    Nix,
    Pacman,
    Zypper,
    Unknown,
}

/// The package manager whose program is called `name`, letter case aside.
pub open spec fn manager_named(name: Seq<char>) -> PackageManager {
    let lowered = lowercase(name);
    if lowered == "apt"@ {
        PackageManager::Apt
    } else if lowered == "dnf"@ {
        PackageManager::Dnf
    } else if lowered == "eopkg"@ {
        PackageManager::Eopkg
    } else if lowered == "nix"@ {
        PackageManager::Nix
    } else if lowered == "pacman"@ {
        PackageManager::Pacman
    } else if lowered == "zypper"@ {
        PackageManager::Zypper
    } else {
        PackageManager::Unknown
    }
}

/// What a single directory entry is accepted as. An `apt` program counts only
/// on a host that also has the metadata directory of that package manager.
pub open spec fn accepted_manager(name: Seq<char>, metadata_present: bool) -> PackageManager {
    let manager = manager_named(name);
    if manager == PackageManager::Apt && !metadata_present {
        PackageManager::Unknown
    } else {
        manager
    }
}

/// The first entry of a directory that is accepted, in listing order.
pub open spec fn first_accepted(entries: Seq<Seq<char>>, metadata_present: bool) -> PackageManager
    decreases entries.len(),
{
    if entries.len() == 0 {
        PackageManager::Unknown
    } else {
        let here = accepted_manager(entries.first(), metadata_present);
        if here != PackageManager::Unknown {
            here
        } else {
            first_accepted(entries.drop_first(), metadata_present)
        }
    }
}

/// What one directory of the search path yields. A directory that could not
/// be listed (`None`) yields nothing.
pub open spec fn directory_yield(
    listing: Option<Seq<Seq<char>>>,
    metadata_present: bool,
) -> PackageManager {
    match listing {
        Some(entries) => first_accepted(entries, metadata_present),
        None => PackageManager::Unknown,
    }
}

/// The package manager of the host: what the first directory of the search
/// path that yields anything yields.
pub open spec fn detected(
    listings: Seq<Option<Seq<Seq<char>>>>,
    metadata_present: bool,
) -> PackageManager
    decreases listings.len(),
{
    if listings.len() == 0 {
        PackageManager::Unknown
    } else {
        let here = directory_yield(listings.first(), metadata_present);
        if here != PackageManager::Unknown {
            here
        } else {
            detected(listings.drop_first(), metadata_present)
        }
    }
}

/// The directories named by a search path, in order: the pieces between the
/// occurrences of the path-list separator.
pub fn split_search_path(search_path: &str, separator: char) -> (directories: Vec<String>)
    ensures
        directories.deep_view() == pieces(search_path@, seq![separator]),
{
    let path = chars_of(search_path);
    let mut mark: Vec<char> = Vec::new();
    mark.push(separator);
    let parts = split(path.as_slice(), mark.as_slice());
    let mut directories: Vec<String> = Vec::new();
    let mut i: usize = 0;
    while i < parts.len()
        invariant
            i <= parts.len(),
            directories.len() == i,
            forall|j: int| 0 <= j < i ==> directories[j]@ == parts[j]@,
        decreases parts.len() - i,
    {
        directories.push(string_of(parts[i].as_slice()));
        i += 1;
    }
    assert(directories.deep_view() =~~= parts.deep_view());
    directories
}

/// The package manager whose program is called `name`, letter case aside.
pub fn identify(name: &str) -> (manager: PackageManager)
    ensures
        manager == manager_named(name@),
{
    let spelled = chars_of(name);
    let lowered = to_ascii_lowercase(spelled.as_slice());
    if same_text(lowered.as_slice(), chars_of("apt").as_slice()) {
        PackageManager::Apt
    } else if same_text(lowered.as_slice(), chars_of("dnf").as_slice()) {
        PackageManager::Dnf
    } else if same_text(lowered.as_slice(), chars_of("eopkg").as_slice()) {
        PackageManager::Eopkg
    } else if same_text(lowered.as_slice(), chars_of("nix").as_slice()) {
        PackageManager::Nix
    } else if same_text(lowered.as_slice(), chars_of("pacman").as_slice()) {
        PackageManager::Pacman
    } else if same_text(lowered.as_slice(), chars_of("zypper").as_slice()) {
        PackageManager::Zypper
    } else {
        PackageManager::Unknown
    }
}

/// Scans the entries of one directory for the program of a package manager.
pub fn scan_directory(entries: &[String], metadata_present: bool) -> (manager: PackageManager)
    ensures
        manager == first_accepted(entries.deep_view(), metadata_present),
{
    let ghost names = entries.deep_view();
    let mut i: usize = 0;
    assert(names.skip(0) =~= names);
    while i < entries.len()
        invariant
            i <= entries.len(),
            names == entries.deep_view(),
            first_accepted(names, metadata_present) == first_accepted(
                names.skip(i as int),
                metadata_present,
            ),
        decreases entries.len() - i,
    {
        let candidate = identify(entries[i].as_str());
        assert(names.skip(i as int).drop_first() =~= names.skip(i + 1));
        match candidate {
            PackageManager::Unknown => {},
            PackageManager::Apt => {
                if metadata_present {
                    return candidate;
                }
            },
            _ => {
                return candidate;
            },
        }
        i += 1;
    }
    PackageManager::Unknown
}

/// Detects the package manager of a host. `listings` holds, for each directory
/// of the search path in order, the names of its entries, or `None` where the
/// directory could not be listed; `metadata_present` says whether the metadata
/// directory of `apt` exists.
pub fn determine_package_manager(
    listings: &[Option<Vec<String>>],
    metadata_present: bool,
) -> (manager: PackageManager)
    ensures
        manager == detected(listings.deep_view(), metadata_present),
{
    let ghost host = listings.deep_view();
    let mut i: usize = 0;
    assert(host.skip(0) =~= host);
    while i < listings.len()
        invariant
            i <= listings.len(),
            host == listings.deep_view(),
            detected(host, metadata_present) == detected(host.skip(i as int), metadata_present),
        decreases listings.len() - i,
    {
        assert(host.skip(i as int).drop_first() =~= host.skip(i + 1));
        match &listings[i] {
            Some(entries) => {
                let found = scan_directory(entries.as_slice(), metadata_present);
                match found {
                    PackageManager::Unknown => {},
                    _ => {
                        return found;
                    },
                }
            },
            None => {},
        }
        i += 1;
    }
    PackageManager::Unknown
}

/// An unreadable directory on the search path changes nothing: detection
/// finds the same package manager with it as without it, wherever it stands.
pub proof fn law_unreadable_directory_skipped(
    before: Seq<Option<Seq<Seq<char>>>>,
    after: Seq<Option<Seq<Seq<char>>>>,
    metadata_present: bool,
)
    ensures
        detected(before + seq![None] + after, metadata_present) == detected(
            before + after,
            metadata_present,
        ),
    decreases before.len(),
{
    let with = before + seq![None::<Seq<Seq<char>>>] + after;
    let without = before + after;
    if before.len() == 0 {
        assert(with.drop_first() =~= after);
    } else {
        assert(with.drop_first() =~= before.drop_first() + seq![None::<Seq<Seq<char>>>] + after);
        assert(without.drop_first() =~= before.drop_first() + after);
        law_unreadable_directory_skipped(before.drop_first(), after, metadata_present);
    }
}

/// Without its metadata directory `apt` is never accepted from a directory.
pub proof fn law_directory_needs_metadata_for_apt(entries: Seq<Seq<char>>)
    ensures
        first_accepted(entries, false) != PackageManager::Apt,
    decreases entries.len(),
{
    if entries.len() > 0 {
        law_directory_needs_metadata_for_apt(entries.drop_first());
    }
}

/// Without its metadata directory `apt` is never detected, whatever programs
/// the search path holds.
pub proof fn law_apt_needs_metadata(listings: Seq<Option<Seq<Seq<char>>>>)
    ensures
        detected(listings, false) != PackageManager::Apt,
    decreases listings.len(),
{
    if listings.len() > 0 {
        match listings.first() {
            Some(entries) => law_directory_needs_metadata_for_apt(entries),
            None => {},
        }
        law_apt_needs_metadata(listings.drop_first());
    }
}

/// Scanning stops at the first directory that yields a package manager: the
/// directories after it have no say.
pub proof fn law_first_match_decides(
    searched: Seq<Option<Seq<Seq<char>>>>,
    unsearched: Seq<Option<Seq<Seq<char>>>>,
    metadata_present: bool,
)
    requires
        detected(searched, metadata_present) != PackageManager::Unknown,
    ensures
        detected(searched + unsearched, metadata_present) == detected(searched, metadata_present),
    decreases searched.len(),
{
    let all = searched + unsearched;
    if directory_yield(searched.first(), metadata_present) == PackageManager::Unknown {
        assert(all.drop_first() =~= searched.drop_first() + unsearched);
        law_first_match_decides(searched.drop_first(), unsearched, metadata_present);
    }
}

} // verus!
